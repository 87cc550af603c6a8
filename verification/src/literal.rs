//! Lexical recognizers for the literals of the language.
//!
//! Each recognizer reads a prefix of the input from a byte position and
//! reports where it stopped.  The shapes follow the Liquid lexer: decimal
//! integers with an optional sign and no leading zero, fractions and
//! exponents for float syntax, and single- or double-quoted strings
//! without escapes.

use vstd::prelude::*;

use crate::num::i64_of_dec;
use crate::value::true_bytes;
use crate::value::false_bytes;

verus! {

/// Whether the word `w` occurs at position `at` of `s`.
pub open spec fn starts_with(s: Seq<u8>, at: int, w: Seq<u8>) -> bool {
    0 <= at && at + w.len() <= s.len() && s.subrange(at, at + w.len()) == w
}

/// Decides whether the word `w` occurs at position `at`.
pub fn match_word(s: &Vec<u8>, at: usize, w: &Vec<u8>) -> (r: bool)
    ensures
        r == starts_with(s@, at as int, w@),
{
    if at > s.len() || w.len() > s.len() - at {
        return false;
    }
    let n = s.len();
    let mut i: usize = 0;
    while i < w.len()
        invariant
            n == s@.len(),
            at + w@.len() <= n,
            0 <= i <= w@.len(),
            forall|j: int| 0 <= j < i ==> s@[at + j] == w@[j],
        decreases w@.len() - i,
    {
        if s[at + i] != w[i] {
            assert(s@.subrange(at as int, at + w@.len())[i as int] != w@[i as int]);
            return false;
        }
        i = i + 1;
    }
    proof {
        assert(s@.subrange(at as int, at + w@.len()) =~= w@);
    }
    true
}

/// Whether a byte is an ASCII decimal digit.
pub open spec fn is_digit(b: u8) -> bool {
    48 <= b <= 57
}

/// The length of the run of decimal digits starting at `i`.
pub open spec fn digits_run(s: Seq<u8>, i: int) -> int
    decreases s.len() - i,
{
    if 0 <= i < s.len() && is_digit(s[i]) {
        1 + digits_run(s, i + 1)
    } else {
        0
    }
}

/// A digit run is never negative and stays inside the input.
pub proof fn lemma_digits_run(s: Seq<u8>, i: int)
    requires
        0 <= i <= s.len(),
    ensures
        0 <= digits_run(s, i),
        i + digits_run(s, i) <= s.len(),
        forall|j: int| i <= j < i + digits_run(s, i) ==> is_digit(#[trigger] s[j]),
        i + digits_run(s, i) < s.len() ==> !is_digit(s[i + digits_run(s, i)]),
    decreases s.len() - i,
{
    if i < s.len() && is_digit(s[i]) {
        lemma_digits_run(s, i + 1);
    }
}

/// Reads a run of decimal digits; reports where it ends.
pub fn scan_digits(s: &Vec<u8>, at: usize) -> (r: usize)
    requires
        at <= s@.len(),
    ensures
        r as int == at + digits_run(s@, at as int),
        at <= r <= s@.len(),
    decreases s@.len() - at,
{
    proof {
        lemma_digits_run(s@, at as int);
    }
    if at < s.len() && 48 <= s[at] && s[at] <= 57 {
        scan_digits(s, at + 1)
    } else {
        at
    }
}

/// Where a decimal integer token ends, if one starts at `at`: an optional
/// `-`, then either a single `0` or a nonzero digit followed by any digits.
pub open spec fn dec_int_end(s: Seq<u8>, at: int) -> Option<int> {
    if at < 0 {
        None
    } else {
        let d0 = if at < s.len() && s[at] == 45 {
            at + 1
        } else {
            at
        };
        if d0 < s.len() && is_digit(s[d0]) {
            if s[d0] == 48 {
                Some(d0 + 1)
            } else {
                Some(d0 + 1 + digits_run(s, d0 + 1))
            }
        } else {
            None
        }
    }
}

/// Recognizes a decimal integer token: an optional sign, then one `0` or a
/// nonzero digit followed by digits.  Reports where the token ends.
pub fn dec_int(s: &Vec<u8>, at: usize) -> (r: Option<usize>)
    requires
        at <= s@.len(),
    ensures
        match r {
            Some(e) => dec_int_end(s@, at as int) == Some(e as int) && at < e <= s@.len(),
            None => dec_int_end(s@, at as int) is None,
        },
{
    let d0: usize = if at < s.len() && s[at] == 45 {
        at + 1
    } else {
        at
    };
    if d0 < s.len() && 48 <= s[d0] && s[d0] <= 57 {
        if s[d0] == 48 {
            Some(d0 + 1)
        } else {
            proof {
                lemma_digits_run(s@, d0 + 1);
            }
            Some(scan_digits(s, d0 + 1))
        }
    } else {
        None
    }
}

/// Recognizes `nil` or `null`; reports where the word ends.
pub fn nil_literal(s: &Vec<u8>, at: usize) -> (r: Option<usize>)
    ensures
        match r {
            Some(e) => (starts_with(s@, at as int, crate::value::nil_bytes()) && e == at + 3)
                || (starts_with(s@, at as int, null_bytes()) && e == at + 4),
            None => !starts_with(s@, at as int, crate::value::nil_bytes()) && !starts_with(
                s@,
                at as int,
                null_bytes(),
            ),
        },
{
    let nil_w = vec![110u8, 105u8, 108u8];
    assert(nil_w@ =~= crate::value::nil_bytes());
    let null_w = vec![110u8, 117u8, 108u8, 108u8];
    assert(null_w@ =~= null_bytes());
    if match_word(s, at, &nil_w) {
        let n = s.len();
        assert(at + 3 <= n);
        Some(at + 3)
    } else if match_word(s, at, &null_w) {
        let n = s.len();
        assert(at + 4 <= n);
        Some(at + 4)
    } else {
        None
    }
}

/// The bytes of the word `null`.
pub open spec fn null_bytes() -> Seq<u8> {
    seq![110u8, 117u8, 108u8, 108u8]
}

/// The bytes of the word `empty`.
pub open spec fn empty_word_bytes() -> Seq<u8> {
    seq![101u8, 109u8, 112u8, 116u8, 121u8]
}

/// The bytes of the word `blank`.
pub open spec fn blank_word_bytes() -> Seq<u8> {
    seq![98u8, 108u8, 97u8, 110u8, 107u8]
}

/// Recognizes `empty`; reports where the word ends.
pub fn empty_literal(s: &Vec<u8>, at: usize) -> (r: Option<usize>)
    ensures
        match r {
            Some(e) => starts_with(s@, at as int, empty_word_bytes()) && e == at + 5,
            None => !starts_with(s@, at as int, empty_word_bytes()),
        },
{
    let w = vec![101u8, 109u8, 112u8, 116u8, 121u8];
    assert(w@ =~= empty_word_bytes());
    if match_word(s, at, &w) {
        let n = s.len();
        assert(at + 5 <= n);
        Some(at + 5)
    } else {
        None
    }
}

/// Recognizes `blank`; reports where the word ends.
pub fn blank_literal(s: &Vec<u8>, at: usize) -> (r: Option<usize>)
    ensures
        match r {
            Some(e) => starts_with(s@, at as int, blank_word_bytes()) && e == at + 5,
            None => !starts_with(s@, at as int, blank_word_bytes()),
        },
{
    let w = vec![98u8, 108u8, 97u8, 110u8, 107u8];
    assert(w@ =~= blank_word_bytes());
    if match_word(s, at, &w) {
        let n = s.len();
        assert(at + 5 <= n);
        Some(at + 5)
    } else {
        None
    }
}

/// Recognizes `true` or `false`; reports where the word ends and which it
/// was.
pub fn bool_literal(s: &Vec<u8>, at: usize) -> (r: Option<(usize, bool)>)
    ensures
        match r {
            Some(p) => (starts_with(s@, at as int, true_bytes()) && p == (
                (at + 4) as usize,
                true,
            )) || (starts_with(s@, at as int, false_bytes()) && p == ((at + 5) as usize, false)),
            None => !starts_with(s@, at as int, true_bytes()) && !starts_with(
                s@,
                at as int,
                false_bytes(),
            ),
        },
{
    let tw = vec![116u8, 114u8, 117u8, 101u8];
    assert(tw@ =~= true_bytes());
    let fw = vec![102u8, 97u8, 108u8, 115u8, 101u8];
    assert(fw@ =~= false_bytes());
    if match_word(s, at, &tw) {
        let n = s.len();
        assert(at + 4 <= n);
        Some((at + 4, true))
    } else if match_word(s, at, &fw) {
        let n = s.len();
        assert(at + 5 <= n);
        Some((at + 5, false))
    } else {
        None
    }
}

/// Copies the bytes of `s` between `from` and `to`.
pub fn copy_range(s: &Vec<u8>, from: usize, to: usize) -> (r: Vec<u8>)
    requires
        from <= to <= s@.len(),
    ensures
        r@ == s@.subrange(from as int, to as int),
{
    let mut r: Vec<u8> = Vec::new();
    let mut i: usize = from;
    while i < to
        invariant
            from <= i <= to <= s@.len(),
            r@ == s@.subrange(from as int, i as int),
        decreases to - i,
    {
        r.push(s[i]);
        assert(r@ =~= s@.subrange(from as int, i + 1));
        i = i + 1;
    }
    r
}

/// What an integer literal at `at` denotes: the token's end and its value,
/// or nothing when there is no token or the value overflows 64 bits.
pub open spec fn integer_literal_m(s: Seq<u8>, at: int) -> Option<(int, i64)> {
    match dec_int_end(s, at) {
        Some(e) => match i64_of_dec(s.subrange(at, e)) {
            Some(v) => Some((e, v)),
            None => None,
        },
        None => None,
    }
}

/// Reads a decimal integer literal: the token recognized by `dec_int`,
/// parsed as a 64-bit integer.  Overflow reads as no literal.
pub fn integer_literal(s: &Vec<u8>, at: usize) -> (r: Option<(usize, i64)>)
    requires
        at <= s@.len(),
    ensures
        match r {
            Some(p) => integer_literal_m(s@, at as int) == Some((p.0 as int, p.1)) && at < p.0
                <= s@.len(),
            None => integer_literal_m(s@, at as int) is None,
        },
{
    match dec_int(s, at) {
        Some(e) => {
            let tok = copy_range(s, at, e);
            match crate::num::parse_i64(&tok) {
                Some(v) => Some((e, v)),
                None => None,
            }
        },
        None => None,
    }
}

/// Where a fraction part ends, if one starts at `at`: a dot, then at least
/// one digit.
pub open spec fn frac_end(s: Seq<u8>, at: int) -> Option<int> {
    if 0 <= at < s.len() && s[at] == 46 && at + 1 < s.len() && is_digit(s[at + 1]) {
        Some(at + 1 + digits_run(s, at + 1))
    } else {
        None
    }
}

/// Recognizes a fraction part: `.` then at least one digit.
pub fn frac(s: &Vec<u8>, at: usize) -> (r: Option<usize>)
    requires
        at <= s@.len(),
    ensures
        match r {
            Some(e) => frac_end(s@, at as int) == Some(e as int) && at < e <= s@.len(),
            None => frac_end(s@, at as int) is None,
        },
{
    if at < s.len() && s[at] == 46 && at + 1 < s.len() && 48 <= s[at + 1] && s[at + 1] <= 57 {
        proof {
            lemma_digits_run(s@, at + 1);
        }
        Some(scan_digits(s, at + 1))
    } else {
        None
    }
}

/// Recognizes at least one digit; reports where the run ends.
pub fn parse_zero_prefixable_int(s: &Vec<u8>, at: usize) -> (r: Option<usize>)
    requires
        at <= s@.len(),
    ensures
        match r {
            Some(e) => digits_run(s@, at as int) > 0 && e as int == at + digits_run(s@, at as int),
            None => digits_run(s@, at as int) == 0,
        },
{
    proof {
        lemma_digits_run(s@, at as int);
    }
    if at < s.len() && 48 <= s[at] && s[at] <= 57 {
        Some(scan_digits(s, at))
    } else {
        None
    }
}

/// Where an exponent part ends, if one starts at `at`: `e` or `E`, an
/// optional sign, then at least one digit.
pub open spec fn exp_end(s: Seq<u8>, at: int) -> Option<int> {
    if 0 <= at < s.len() && (s[at] == 101 || s[at] == 69) {
        let d0 = if at + 1 < s.len() && (s[at + 1] == 43 || s[at + 1] == 45) {
            at + 2
        } else {
            at + 1
        };
        if d0 < s.len() && is_digit(s[d0]) {
            Some(d0 + digits_run(s, d0))
        } else {
            None
        }
    } else {
        None
    }
}

/// Recognizes an exponent part: `e` or `E`, an optional sign, digits.
pub fn exp(s: &Vec<u8>, at: usize) -> (r: Option<usize>)
    requires
        at <= s@.len(),
    ensures
        match r {
            Some(e) => exp_end(s@, at as int) == Some(e as int) && at < e <= s@.len(),
            None => exp_end(s@, at as int) is None,
        },
{
    if at < s.len() && (s[at] == 101 || s[at] == 69) {
        let d0: usize = if at + 1 < s.len() && (s[at + 1] == 43 || s[at + 1] == 45) {
            at + 2
        } else {
            at + 1
        };
        if d0 < s.len() && 48 <= s[d0] && s[d0] <= 57 {
            proof {
                lemma_digits_run(s@, d0 as int);
            }
            Some(scan_digits(s, d0))
        } else {
            None
        }
    } else {
        None
    }
}

/// Where a float token with an exponent ends, if one starts at `at`: an
/// integer part, an optional fraction, then a mandatory exponent.
pub open spec fn parse_float_end(s: Seq<u8>, at: int) -> Option<int> {
    match dec_int_end(s, at) {
        Some(e1) => {
            let e2 = match frac_end(s, e1) {
                Some(f) => f,
                None => e1,
            };
            exp_end(s, e2)
        },
        None => None,
    }
}

/// Recognizes a float token with an exponent: integer part, optional
/// fraction, exponent.  The engine's values carry no floats, so the
/// recognizer only reports the token's extent.
pub fn parse_float(s: &Vec<u8>, at: usize) -> (r: Option<usize>)
    requires
        at <= s@.len(),
    ensures
        match r {
            Some(e) => parse_float_end(s@, at as int) == Some(e as int) && e <= s@.len(),
            None => parse_float_end(s@, at as int) is None,
        },
{
    match dec_int(s, at) {
        Some(e1) => {
            let e2 = match frac(s, e1) {
                Some(f) => f,
                None => e1,
            };
            exp(s, e2)
        },
        None => None,
    }
}

/// The position of the first non-whitespace byte at or after `i`.
pub open spec fn ws_end(s: Seq<u8>, i: int) -> int
    decreases s.len() - i,
{
    if 0 <= i < s.len() && crate::value::is_ws(s[i]) {
        ws_end(s, i + 1)
    } else {
        i
    }
}

/// Whitespace runs end inside the input.
pub proof fn lemma_ws_end(s: Seq<u8>, i: int)
    requires
        0 <= i <= s.len(),
    ensures
        i <= ws_end(s, i) <= s.len(),
    decreases s.len() - i,
{
    if i < s.len() && crate::value::is_ws(s[i]) {
        lemma_ws_end(s, i + 1);
    }
}

/// Skips ASCII whitespace; reports the first position past it.
pub fn skip_ws(s: &Vec<u8>, at: usize) -> (r: usize)
    requires
        at <= s@.len(),
    ensures
        r as int == ws_end(s@, at as int),
        at <= r <= s@.len(),
    decreases s@.len() - at,
{
    if at < s.len() {
        let b = s[at];
        if b == 9 || b == 10 || b == 12 || b == 13 || b == 32 {
            return skip_ws(s, at + 1);
        }
    }
    at
}

/// Whether a byte may start an identifier: a letter or `_`.
pub open spec fn is_ident_start(b: u8) -> bool {
    (65 <= b <= 90) || (97 <= b <= 122) || b == 95
}

/// Whether a byte may continue an identifier: a letter, digit or `_`.
pub open spec fn is_ident_byte(b: u8) -> bool {
    is_ident_start(b) || is_digit(b)
}

/// Where the identifier starting at `i` ends: zero length when none
/// starts there.
pub open spec fn ident_end(s: Seq<u8>, i: int) -> int {
    if 0 <= i < s.len() && is_ident_start(s[i]) {
        ident_run(s, i)
    } else {
        i
    }
}

/// The end of the identifier-byte run from `i` on.
pub open spec fn ident_run(s: Seq<u8>, i: int) -> int
    decreases s.len() - i,
{
    if 0 <= i < s.len() && is_ident_byte(s[i]) {
        ident_run(s, i + 1)
    } else {
        i
    }
}

/// Identifier runs end inside the input.
pub proof fn lemma_ident_run(s: Seq<u8>, i: int)
    requires
        0 <= i <= s.len(),
    ensures
        i <= ident_run(s, i) <= s.len(),
    decreases s.len() - i,
{
    if i < s.len() && is_ident_byte(s[i]) {
        lemma_ident_run(s, i + 1);
    }
}

/// Scans identifier bytes; reports the first position past them.
fn scan_ident(s: &Vec<u8>, at: usize) -> (r: usize)
    requires
        at <= s@.len(),
    ensures
        r as int == ident_run(s@, at as int),
        at <= r <= s@.len(),
    decreases s@.len() - at,
{
    if at < s.len() {
        let b = s[at];
        if (65 <= b && b <= 90) || (97 <= b && b <= 122) || b == 95 || (48 <= b && b <= 57) {
            return scan_ident(s, at + 1);
        }
    }
    at
}

/// Reads an identifier: a letter or `_`, then letters, digits and `_`.
/// Reports where it ends; `at` itself when none starts there.
pub fn ident(s: &Vec<u8>, at: usize) -> (r: usize)
    requires
        at <= s@.len(),
    ensures
        r as int == ident_end(s@, at as int),
        at <= r <= s@.len(),
{
    proof {
        lemma_ident_run(s@, at as int);
    }
    if at < s.len() {
        let b = s[at];
        if (65 <= b && b <= 90) || (97 <= b && b <= 122) || b == 95 {
            return scan_ident(s, at);
        }
    }
    at
}


/// The bytes of the word `nan`.
pub open spec fn nan_word() -> Seq<u8> {
    seq![110u8, 97u8, 110u8]
}

/// The bytes of the word `inf`.
pub open spec fn inf_word() -> Seq<u8> {
    seq![105u8, 110u8, 102u8]
}

/// Where a special float token ends, if one starts at `at`: an optional
/// sign, then the word `nan` or `inf`.  Reports the end, whether the sign
/// was negative, and whether the word was `nan`.
pub open spec fn special_float_m(s: Seq<u8>, at: int) -> Option<(int, bool, bool)> {
    let signed = 0 <= at < s.len() && (s[at] == 43 || s[at] == 45);
    let neg = 0 <= at < s.len() && s[at] == 45;
    let w0 = if signed {
        at + 1
    } else {
        at
    };
    if starts_with(s, w0, nan_word()) {
        Some((w0 + 3, neg, true))
    } else if starts_with(s, w0, inf_word()) {
        Some((w0 + 3, neg, false))
    } else {
        None
    }
}

/// Recognizes a special float token: an optional sign, then `nan` or
/// `inf`.  The engine's values carry no floats, so the recognizer only
/// reports the token's extent, its sign, and which word it was.
pub fn special_float(s: &Vec<u8>, at: usize) -> (r: Option<(usize, bool, bool)>)
    requires
        at <= s@.len(),
    ensures
        match r {
            Some(p) => special_float_m(s@, at as int) == Some((p.0 as int, p.1, p.2)) && p.0
                <= s@.len(),
            None => special_float_m(s@, at as int) is None,
        },
{
    let signed = at < s.len() && (s[at] == 43 || s[at] == 45);
    let neg = at < s.len() && s[at] == 45;
    let w0: usize = if signed {
        at + 1
    } else {
        at
    };
    let nw = vec![110u8, 97u8, 110u8];
    assert(nw@ =~= nan_word());
    let iw = vec![105u8, 110u8, 102u8];
    assert(iw@ =~= inf_word());
    if match_word(s, w0, &nw) {
        let n = s.len();
        assert(w0 + 3 <= n);
        Some((w0 + 3, neg, true))
    } else if match_word(s, w0, &iw) {
        let n = s.len();
        assert(w0 + 3 <= n);
        Some((w0 + 3, neg, false))
    } else {
        None
    }
}

/// The position of the first `q` at or after `i`.
pub open spec fn quote_end(s: Seq<u8>, i: int, q: u8) -> Option<int>
    decreases s.len() - i,
{
    if i < 0 || i >= s.len() {
        None
    } else if s[i] == q {
        Some(i)
    } else {
        quote_end(s, i + 1, q)
    }
}

/// Finds the first `q` at or after `i`.
fn find_quote(s: &Vec<u8>, i: usize, q: u8) -> (r: Option<usize>)
    requires
        i <= s@.len(),
    ensures
        match r {
            Some(e) => quote_end(s@, i as int, q) == Some(e as int) && i <= e < s@.len(),
            None => quote_end(s@, i as int, q) is None,
        },
    decreases s@.len() - i,
{
    if i == s.len() {
        None
    } else if s[i] == q {
        Some(i)
    } else {
        find_quote(s, i + 1, q)
    }
}

/// What a string literal at `at` denotes: the closing quote's position and
/// the bytes between the quotes.  Quotes are single or double; there are
/// no escapes, and the other kind of quote may occur inside.
pub open spec fn string_literal_m(s: Seq<u8>, at: int) -> Option<(int, Seq<u8>)> {
    if 0 <= at < s.len() && (s[at] == 39 || s[at] == 34) {
        match quote_end(s, at + 1, s[at]) {
            Some(c) => Some((c + 1, s.subrange(at + 1, c))),
            None => None,
        }
    } else {
        None
    }
}

/// Reads a string literal: a quote, the content, the matching quote.
/// Reports where the literal ends and hands the content out.
pub fn string_literal(s: &Vec<u8>, at: usize) -> (r: Option<(usize, Vec<u8>)>)
    requires
        at <= s@.len(),
    ensures
        match r {
            Some(p) => string_literal_m(s@, at as int) matches Some(q) && q.0 == p.0 as int && q.1
                == p.1@ && at < p.0 <= s@.len(),
            None => string_literal_m(s@, at as int) is None,
        },
{
    if at < s.len() && (s[at] == 39 || s[at] == 34) {
        let q = s[at];
        match find_quote(s, at + 1, q) {
            Some(c) => {
                let content = copy_range(s, at + 1, c);
                Some((c + 1, content))
            },
            None => None,
        }
    } else {
        None
    }
}

} // verus!
