//! Decimal rendering and parsing of integers.
//!
//! Scalars of the engine render integers in plain decimal, and the parser
//! reads decimal integer literals back.  Both directions are specified
//! against the same mathematical digit expansion, so the round trip can be
//! proved once and reused by the scalar `source()` law.

use vstd::prelude::*;

verus! {

/// The decimal digit expansion of a non-negative integer, most significant
/// digit first, as ASCII bytes.
pub open spec fn dec_of_nat(n: nat) -> Seq<u8>
    decreases n,
{
    if n < 10 {
        seq![(n + 48) as u8]
    } else {
        dec_of_nat(n / 10).push(((n % 10) + 48) as u8)
    }
}

/// The decimal form of a signed integer: a leading `-` for negatives.
pub open spec fn dec_of_int(n: int) -> Seq<u8> {
    if n < 0 {
        seq![45u8] + dec_of_nat((-n) as nat)
    } else {
        dec_of_nat(n as nat)
    }
}

/// Whether every byte of `s` is an ASCII decimal digit.
pub open spec fn all_digits(s: Seq<u8>) -> bool {
    forall|i: int| 0 <= i < s.len() ==> 48 <= #[trigger] s[i] <= 57
}

/// The non-negative value of a digit string, read most significant first.
pub open spec fn dec_val(s: Seq<u8>) -> int
    decreases s.len(),
{
    if s.len() == 0 {
        0
    } else {
        dec_val(s.drop_last()) * 10 + (s.last() - 48)
    }
}

/// The value of a digit string is never negative.
pub proof fn lemma_dec_val_nonneg(s: Seq<u8>)
    requires
        all_digits(s),
    ensures
        dec_val(s) >= 0,
    decreases s.len(),
{
    if s.len() > 0 {
        assert(all_digits(s.drop_last())) by {
            assert(forall|i: int|
                0 <= i < s.len() - 1 ==> s.drop_last()[i] == #[trigger] s[i]);
        }
        lemma_dec_val_nonneg(s.drop_last());
    }
}

/// Appending one digit multiplies the value by ten and adds the digit.
pub proof fn lemma_dec_val_push(s: Seq<u8>, d: u8)
    ensures
        dec_val(s.push(d)) == dec_val(s) * 10 + (d - 48),
{
    assert(s.push(d).drop_last() =~= s);
}

/// The digit expansion of `n` consists of digits, is never empty, has no
/// leading zero unless `n` itself is a single digit, and reads back as `n`.
pub proof fn lemma_dec_of_nat(n: nat)
    ensures
        all_digits(dec_of_nat(n)),
        dec_of_nat(n).len() >= 1,
        dec_val(dec_of_nat(n)) == n,
        n >= 10 ==> dec_of_nat(n)[0] != 48,
        n < 10 ==> dec_of_nat(n) =~= seq![(n + 48) as u8],
    decreases n,
{
    if n < 10 {
        assert(dec_val(dec_of_nat(n)) == n) by {
            reveal_with_fuel(dec_val, 2);
        }
    } else {
        lemma_dec_of_nat(n / 10);
        lemma_dec_val_push(dec_of_nat(n / 10), ((n % 10) + 48) as u8);
        assert(dec_of_nat(n) == dec_of_nat(n / 10).push(((n % 10) + 48) as u8));
        assert((((n % 10) + 48) as u8) == (n % 10) + 48);
        assert(dec_val(dec_of_nat(n)) == (n / 10) * 10 + (n % 10));
        assert(dec_of_nat(n)[0] == dec_of_nat(n / 10)[0]);
    }
}

/// Writes the decimal digits of `n` onto the end of `out`.
fn push_dec_u64(n: u64, out: &mut Vec<u8>)
    ensures
        final(out)@ == old(out)@ + dec_of_nat(n as nat),
    decreases n,
{
    if n < 10 {
        out.push((n as u8) + 48);
        assert(out@ =~= old(out)@ + dec_of_nat(n as nat));
    } else {
        push_dec_u64(n / 10, out);
        out.push(((n % 10) as u8) + 48);
        assert(out@ =~= old(out)@ + dec_of_nat(n as nat));
    }
}

/// A prefix of a digit string never exceeds the whole string in value.
pub proof fn lemma_dec_val_prefix_le(s: Seq<u8>, i: int)
    requires
        all_digits(s),
        0 <= i <= s.len(),
    ensures
        dec_val(s.subrange(0, i)) <= dec_val(s),
    decreases s.len() - i,
{
    lemma_dec_val_nonneg(s);
    if i == s.len() {
        assert(s.subrange(0, i) =~= s);
    } else {
        let t = s.subrange(0, s.len() - 1);
        assert(all_digits(t));
        lemma_dec_val_nonneg(t);
        assert(t =~= s.drop_last());
        assert(dec_val(s) == dec_val(t) * 10 + (s[s.len() - 1] - 48));
        if i == s.len() - 1 {
            assert(s.subrange(0, i) =~= t);
        } else {
            lemma_dec_val_prefix_le(t, i);
            assert(t.subrange(0, i) =~= s.subrange(0, i));
        }
    }
}

/// The signed integer denoted by `s` as a whole: an optional sign, then at
/// least one decimal digit. `None` when `s` is not of that shape.
pub open spec fn int_of_dec(s: Seq<u8>) -> Option<int> {
    let signed = s.len() > 0 && (s[0] == 43 || s[0] == 45);
    let digits = if signed {
        s.subrange(1, s.len() as int)
    } else {
        s
    };
    if digits.len() > 0 && all_digits(digits) {
        if signed && s[0] == 45 {
            Some(-dec_val(digits))
        } else {
            Some(dec_val(digits))
        }
    } else {
        None
    }
}

/// The result of reading `s` as a 64-bit signed integer, as Rust's decimal
/// parse does: the denoted value when it fits, `None` otherwise.
pub open spec fn i64_of_dec(s: Seq<u8>) -> Option<i64> {
    match int_of_dec(s) {
        Some(v) => if i64::MIN <= v <= i64::MAX {
            Some(v as i64)
        } else {
            None
        },
        None => None,
    }
}

/// Parses the whole of `s` as a decimal 64-bit integer with an optional
/// leading sign. Returns `None` on any stray byte or on overflow.
pub fn parse_i64(s: &Vec<u8>) -> (r: Option<i64>)
    ensures
        r == i64_of_dec(s@),
{
    let ghost whole = s@;
    let mut i: usize = 0;
    let mut neg: bool = false;
    if s.len() > 0 && (s[0] == 43 || s[0] == 45) {
        neg = s[0] == 45;
        i = 1;
    }
    let start = i;
    let ghost digits = whole.subrange(start as int, whole.len() as int);
    proof {
        if start == 0 {
            assert(digits =~= whole);
        }
    }
    if i == s.len() {
        return None;
    }
    // Magnitudes are accumulated up to 2^63, enough for every i64.
    let bound: u64 = 9223372036854775808;
    let mut acc: u64 = 0;
    while i < s.len()
        invariant
            start <= i <= s@.len(),
            start == if s@.len() > 0 && (s@[0] == 43 || s@[0] == 45) {
                1int
            } else {
                0int
            },
            digits == s@.subrange(start as int, s@.len() as int),
            start == 0 ==> digits == s@,
            all_digits(digits.subrange(0, i - start)),
            acc == dec_val(digits.subrange(0, i - start)),
            acc <= bound,
            bound == 9223372036854775808,
        decreases s@.len() - i,
    {
        let b = s[i];
        if b < 48 || b > 57 {
            assert(digits[i - start] == b);
            assert(!all_digits(digits));
            return None;
        }
        let d = (b - 48) as u64;
        let ghost pre = digits.subrange(0, i - start);
        proof {
            lemma_dec_val_push(pre, b);
            assert(digits.subrange(0, i + 1 - start) =~= pre.push(b));
        }
        if acc > (bound - d) / 10 {
            // The value read so far already exceeds every i64.
            proof {
                lemma_dec_val_nonneg(pre);
                assert(acc * 10 + d > bound) by (nonlinear_arith)
                    requires
                        acc > (bound - d) / 10,
                        0 <= d < 10,
                        bound == 9223372036854775808,
                        acc >= 0,
                ;
                if all_digits(digits) {
                    lemma_dec_val_prefix_le(digits, i + 1 - start);
                    assert(dec_val(digits) >= acc * 10 + d > 9223372036854775808);
                }
            }
            return None;
        }
        assert(acc * 10 + d <= bound) by (nonlinear_arith)
            requires
                acc <= (bound - d) / 10,
                0 <= d < 10,
                bound == 9223372036854775808,
                acc >= 0,
        ;
        acc = acc * 10 + d;
        i = i + 1;
    }
    assert(digits.subrange(0, i - start) =~= digits);
    if neg {
        if acc == bound {
            return Some(i64::MIN);
        }
        Some(-((acc) as i64))
    } else {
        if acc == bound {
            return None;
        }
        Some(acc as i64)
    }
}

/// Renders a signed integer in decimal, as its Liquid text form.
pub fn render_int(n: i64) -> (r: Vec<u8>)
    ensures
        r@ == dec_of_int(n as int),
{
    let mut out: Vec<u8> = Vec::new();
    if n >= 0 {
        push_dec_u64(n as u64, &mut out);
        assert(out@ =~= dec_of_int(n as int));
    } else {
        out.push(45);
        // `-(n + 1)` stays in range even for the smallest value.
        let m: u64 = ((-(n + 1)) as u64) + 1;
        assert(m as int == -(n as int));
        push_dec_u64(m, &mut out);
        assert(out@ =~= dec_of_int(n as int));
    }
    out
}

} // verus!
