//! Parsing of decimal price/quantity tokens into fixed-point units.
//!
//! A token is an unsigned decimal numeral, `digits`, `digits.digits`,
//! `digits.` or `.digits`, with at most eight fraction digits. Its value is
//! held as an integer count of `1 / SCALE` units. Anything else — signs,
//! exponents, non-digits, more than eight fraction digits, or a value above
//! [`MAX_UNITS`] — is rejected.

use vstd::prelude::*;
use crate::{MAX_UNITS, SCALE};

verus! {

/// Largest integer part a token may carry: `MAX_UNITS / SCALE`.
pub const MAX_INT_PART: u64 = 1_000_000_000;

/// A price or quantity token was not a valid in-range decimal numeral.
#[derive(Debug, Clone, Copy, PartialEq, Eq, Structural)]
pub struct ParseError;

pub open spec fn is_digit_char(c: char) -> bool {
    48 <= c as int && c as int <= 57
}

pub open spec fn digit_of(c: char) -> int {
    c as int - 48
}

pub open spec fn all_digits(s: Seq<char>) -> bool {
    forall|i: int| 0 <= i < s.len() ==> is_digit_char(#[trigger] s[i])
}

/// Value of a digit string read in base ten.
pub open spec fn digits_val(s: Seq<char>) -> int
    decreases s.len(),
{
    if s.len() == 0 {
        0
    } else {
        digits_val(s.drop_last()) * 10 + digit_of(s.last())
    }
}

pub open spec fn pow10(n: nat) -> int
    decreases n,
{
    if n == 0 {
        1
    } else {
        10 * pow10((n - 1) as nat)
    }
}

/// Index of the first `'.'`, or the length when there is none.
pub open spec fn dot_index(s: Seq<char>) -> int
    decreases s.len(),
{
    if s.len() == 0 {
        0
    } else if s[0] == '.' {
        0
    } else {
        1 + dot_index(s.skip(1))
    }
}

pub open spec fn int_part(s: Seq<char>) -> Seq<char> {
    s.take(dot_index(s))
}

pub open spec fn frac_part(s: Seq<char>) -> Seq<char> {
    if dot_index(s) == s.len() {
        Seq::empty()
    } else {
        s.skip(dot_index(s) + 1)
    }
}

/// The token's value in `1 / SCALE` units (meaningful when the parts are
/// digit strings).
pub open spec fn number_units(s: Seq<char>) -> int {
    digits_val(int_part(s)) * SCALE + digits_val(frac_part(s)) * pow10(
        (8 - frac_part(s).len()) as nat,
    )
}

/// Which tokens the library accepts.
pub open spec fn valid_number(s: Seq<char>) -> bool {
    &&& all_digits(int_part(s))
    &&& all_digits(frac_part(s))
    &&& int_part(s).len() + frac_part(s).len() > 0
    &&& frac_part(s).len() <= 8
    &&& number_units(s) <= MAX_UNITS as int
}

pub proof fn lemma_pow10_pos(n: nat)
    ensures
        pow10(n) >= 1,
    decreases n,
{
    if n > 0 {
        lemma_pow10_pos((n - 1) as nat);
    }
}

pub proof fn lemma_pow10_add(a: nat, b: nat)
    ensures
        pow10(a) * pow10(b) == pow10(a + b),
    decreases a,
{
    if a == 0 {
        assert(pow10(0) * pow10(b) == pow10(b));
    } else {
        lemma_pow10_add((a - 1) as nat, b);
        assert(pow10(a) * pow10(b) == 10 * (pow10((a - 1) as nat) * pow10(b)))
            by (nonlinear_arith)
            requires pow10(a) == 10 * pow10((a - 1) as nat);
    }
}

/// A digit string's value is non-negative and below `10^len`.
pub proof fn lemma_digits_val_bounds(s: Seq<char>)
    requires
        all_digits(s),
    ensures
        0 <= digits_val(s) < pow10(s.len()),
    decreases s.len(),
{
    if s.len() == 0 {
    } else {
        assert(all_digits(s.drop_last()));
        lemma_digits_val_bounds(s.drop_last());
        assert(is_digit_char(s.last()));
        assert(pow10(s.len()) == 10 * pow10((s.len() - 1) as nat));
        assert(digits_val(s) < pow10(s.len())) by (nonlinear_arith)
            requires
                digits_val(s) == digits_val(s.drop_last()) * 10 + digit_of(s.last()),
                digits_val(s.drop_last()) <= pow10((s.len() - 1) as nat) - 1,
                digit_of(s.last()) <= 9,
                pow10(s.len()) == 10 * pow10((s.len() - 1) as nat);
    }
}

/// Extending a digit string never lowers its value.
pub proof fn lemma_digits_val_prefix(s: Seq<char>, i: int)
    requires
        0 <= i <= s.len(),
        all_digits(s),
    ensures
        digits_val(s.take(i)) <= digits_val(s),
    decreases s.len() - i,
{
    if i == s.len() {
        assert(s.take(i) =~= s);
    } else {
        lemma_digits_val_prefix(s, i + 1);
        let t = s.take(i + 1);
        assert(t.drop_last() =~= s.take(i));
        assert(all_digits(t.drop_last()));
        lemma_digits_val_bounds(t.drop_last());
        assert(is_digit_char(t.last()));
        assert(digits_val(t) >= digits_val(t.drop_last())) by (nonlinear_arith)
            requires
                digits_val(t) == digits_val(t.drop_last()) * 10 + digit_of(t.last()),
                digits_val(t.drop_last()) >= 0,
                digit_of(t.last()) >= 0;
    }
}

/// Pins `dot_index` once the first dot (or its absence) is known.
pub proof fn lemma_dot_index_at(s: Seq<char>, i: int)
    requires
        0 <= i <= s.len(),
        forall|k: int| 0 <= k < i ==> s[k] != '.',
        i == s.len() || s[i] == '.',
    ensures
        dot_index(s) == i,
    decreases i,
{
    if i == 0 {
    } else {
        assert(s[0] != '.');
        lemma_dot_index_at(s.skip(1), i - 1);
    }
}

/// Turns a fraction-digit count into the matching power of ten.
fn pow10_exec(e: u64) -> (r: u64)
    requires
        e <= 8,
    ensures
        r as int == pow10(e as nat),
{
    proof {
        reveal_with_fuel(pow10, 10);
    }
    if e == 0 {
        1
    } else if e == 1 {
        10
    } else if e == 2 {
        100
    } else if e == 3 {
        1_000
    } else if e == 4 {
        10_000
    } else if e == 5 {
        100_000
    } else if e == 6 {
        1_000_000
    } else if e == 7 {
        10_000_000
    } else {
        100_000_000
    }
}

/// Parses one price/quantity token into fixed-point units.
pub fn parse_units(s: &str) -> (r: Result<u64, ParseError>)
    ensures
        valid_number(s@) <==> r is Ok,
        r matches Ok(u) ==> u as int == number_units(s@) && u <= MAX_UNITS,
{
    let n = s.unicode_len();

    // Find the first dot, if any.
    let mut dot_pos: usize = n;
    let mut j: usize = 0;
    while j < n
        invariant
            j <= n,
            n == s@.len(),
            dot_pos == n || (dot_pos < j && s@[dot_pos as int] == '.'),
            forall|k: int| 0 <= k < (if dot_pos < n { dot_pos as int } else { j as int })
                ==> s@[k] != '.',
        decreases n - j,
    {
        if s.get_char(j) == '.' && dot_pos == n {
            dot_pos = j;
        }
        j += 1;
    }
    proof {
        lemma_dot_index_at(s@, dot_pos as int);
    }

    // Integer part.
    let mut ipv: u64 = 0;
    let mut k: usize = 0;
    while k < dot_pos
        invariant
            k <= dot_pos <= n,
            n == s@.len(),
            dot_index(s@) == dot_pos as int,
            all_digits(s@.take(k as int)),
            ipv as int == digits_val(s@.take(k as int)),
            ipv <= MAX_INT_PART,
        decreases dot_pos - k,
    {
        let c = s.get_char(k);
        let cv = c as u32;
        if cv < 48 || cv > 57 {
            proof {
                assert(int_part(s@)[k as int] == s@[k as int]);
                assert(!is_digit_char(int_part(s@)[k as int]));
            }
            return Err(ParseError);
        }
        let d = (cv - 48) as u64;
        proof {
            let t = s@.take(k + 1);
            assert(t.drop_last() =~= s@.take(k as int));
            assert(t.last() == s@[k as int]);
        }
        ipv = ipv * 10 + d;
        k += 1;
        if ipv > MAX_INT_PART {
            proof {
                if valid_number(s@) {
                    assert(s@.take(k as int) =~= int_part(s@).take(k as int));
                    lemma_digits_val_prefix(int_part(s@), k as int);
                    lemma_digits_val_bounds(frac_part(s@));
                    lemma_pow10_pos((8 - frac_part(s@).len()) as nat);
                    assert(number_units(s@) > MAX_UNITS as int) by (nonlinear_arith)
                        requires
                            digits_val(int_part(s@)) > MAX_INT_PART as int,
                            digits_val(frac_part(s@)) >= 0,
                            pow10((8 - frac_part(s@).len()) as nat) >= 1,
                            number_units(s@) == digits_val(int_part(s@)) * SCALE
                                + digits_val(frac_part(s@)) * pow10(
                                    (8 - frac_part(s@).len()) as nat),
                            MAX_UNITS == 100_000_000_000_000_000u64,
                            MAX_INT_PART == 1_000_000_000u64,
                            SCALE == 100_000_000u64;
                }
            }
            return Err(ParseError);
        }
    }
    proof {
        assert(s@.take(dot_pos as int) =~= int_part(s@));
    }

    // Fraction part.
    let frac_len: usize = if dot_pos < n { n - dot_pos - 1 } else { 0 };
    proof {
        if dot_pos < n {
            assert(frac_part(s@) =~= s@.skip(dot_pos + 1));
        }
        assert(frac_part(s@).len() == frac_len as int);
    }
    if dot_pos == 0 && frac_len == 0 {
        return Err(ParseError);
    }
    if frac_len > 8 {
        return Err(ParseError);
    }
    let mut fpv: u64 = 0;
    let mut m: usize = 0;
    while m < frac_len
        invariant
            m <= frac_len <= 8,
            n == s@.len(),
            dot_index(s@) == dot_pos as int,
            frac_part(s@).len() == frac_len as int,
            frac_len > 0 ==> dot_pos < n && frac_len == n - dot_pos - 1
                && frac_part(s@) == s@.skip(dot_pos + 1),
            all_digits(frac_part(s@).take(m as int)),
            fpv as int == digits_val(frac_part(s@).take(m as int)),
        decreases frac_len - m,
    {
        let c = s.get_char(dot_pos + 1 + m);
        let cv = c as u32;
        if cv < 48 || cv > 57 {
            proof {
                assert(frac_part(s@)[m as int] == s@[dot_pos + 1 + m]);
                assert(!is_digit_char(frac_part(s@)[m as int]));
            }
            return Err(ParseError);
        }
        let d = (cv - 48) as u64;
        proof {
            let f = frac_part(s@);
            let t = f.take(m + 1);
            assert(t.drop_last() =~= f.take(m as int));
            assert(t.last() == f[m as int]);
            assert(f[m as int] == s@[dot_pos + 1 + m]);
            lemma_digits_val_bounds(f.take(m as int));
            lemma_pow10_pos(8);
            assert(pow10(m as nat) <= pow10(8)) by {
                lemma_pow10_add(m as nat, (8 - m) as nat);
                lemma_pow10_pos((8 - m) as nat);
                lemma_pow10_pos(m as nat);
                assert(pow10(8) == pow10(m as nat) * pow10((8 - m) as nat));
                assert(pow10(m as nat) * 1 <= pow10(m as nat) * pow10((8 - m) as nat))
                    by (nonlinear_arith)
                    requires
                        pow10(m as nat) >= 1,
                        pow10((8 - m) as nat) >= 1;
            }
            reveal_with_fuel(pow10, 10);
        }
        fpv = fpv * 10 + d;
        m += 1;
    }
    proof {
        assert(frac_part(s@).take(frac_len as int) =~= frac_part(s@));
        lemma_digits_val_bounds(frac_part(s@));
    }

    // Assemble and range-check.
    let scale_up = pow10_exec(8 - frac_len as u64);
    proof {
        lemma_pow10_pos((8 - frac_len) as nat);
        lemma_pow10_add(frac_len as nat, (8 - frac_len) as nat);
        assert((fpv as int) * (scale_up as int) < pow10(8)) by (nonlinear_arith)
            requires
                (fpv as int) < pow10(frac_len as nat),
                scale_up as int == pow10((8 - frac_len) as nat),
                scale_up >= 1,
                pow10(frac_len as nat) * pow10((8 - frac_len) as nat) == pow10(8),
                fpv >= 0;
        reveal_with_fuel(pow10, 10);
        assert(pow10(8) == SCALE as int);
    }
    let frac_units = fpv * scale_up;
    let units = ipv * SCALE + frac_units;
    if units > MAX_UNITS {
        return Err(ParseError);
    }
    Ok(units)
}

} // verus!
