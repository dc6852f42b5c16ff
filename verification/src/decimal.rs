use crate::errors::DecodeError;
use vstd::prelude::*;
use vstd::string::StringSliceAdditionalSpecFns;

verus! {

/// Number of fractional digits a [`Decimal`] keeps.
pub const FRACTION_DIGITS: usize = 6;

/// Units per whole: ten to the power [`FRACTION_DIGITS`].
pub const SCALE: u64 = 1_000_000;

/// A non-negative fixed-point number with six fractional digits, held as a
/// count of millionths. Arithmetic on it is integer arithmetic on `units`,
/// so repeated updates never drift.
#[derive(Clone, Copy, Debug, PartialEq, Eq, PartialOrd, Ord, Hash, Structural)]
pub struct Decimal {
    pub units: u64,
}

/// The byte is an ASCII digit.
pub open spec fn is_digit(b: u8) -> bool {
    48 <= b <= 57
}

/// Every byte is an ASCII digit.
pub open spec fn all_digits(s: Seq<u8>) -> bool {
    forall|i: int| 0 <= i < s.len() ==> is_digit(#[trigger] s[i])
}

/// The number that a run of decimal digits writes.
pub open spec fn digits_value(s: Seq<u8>) -> nat
    decreases s.len(),
{
    if s.len() == 0 {
        0
    } else {
        digits_value(s.drop_last()) * 10 + (s.last() - 48) as nat
    }
}

/// Ten to the power `n`.
pub open spec fn pow10(n: nat) -> nat
    decreases n,
{
    if n == 0 {
        1
    } else {
        10 * pow10((n - 1) as nat)
    }
}

/// `dot` is where the whole part of `s` ends: either the position of the
/// separator, with at least one digit on each side of it, or the end of a
/// text that is digits only.
pub open spec fn splits_at(s: Seq<u8>, dot: int) -> bool {
    &&& 0 < dot <= s.len()
    &&& all_digits(s.take(dot))
    &&& dot < s.len() ==> s[dot] == 46 && dot + 1 < s.len() && all_digits(s.skip(dot + 1))
}

/// The accepted grammar: `digits` or `digits.digits`, nothing else.
pub open spec fn is_decimal_text(s: Seq<u8>) -> bool {
    exists|dot: int| splits_at(s, dot)
}

/// Where the whole part of a well-formed text ends.
pub open spec fn dot_of(s: Seq<u8>) -> int {
    choose|dot: int| splits_at(s, dot)
}

/// The digits before the separator.
pub open spec fn whole_part(s: Seq<u8>) -> Seq<u8> {
    s.take(dot_of(s))
}

/// The digits behind the separator, none where there is no separator.
pub open spec fn fraction_part(s: Seq<u8>) -> Seq<u8> {
    if dot_of(s) < s.len() {
        s.skip(dot_of(s) + 1)
    } else {
        Seq::empty()
    }
}

/// No digit beyond the kept precision is other than `0`.
pub open spec fn is_exact(s: Seq<u8>) -> bool {
    forall|i: int| 6 <= i < fraction_part(s).len() ==> #[trigger] fraction_part(s)[i] == 48
}

/// The fractional digits within the kept precision.
pub open spec fn kept_fraction(s: Seq<u8>) -> Seq<u8> {
    if fraction_part(s).len() <= 6 {
        fraction_part(s)
    } else {
        fraction_part(s).take(6)
    }
}

/// The value of a well-formed text, in millionths.
pub open spec fn text_units(s: Seq<u8>) -> nat {
    digits_value(whole_part(s)) * 1_000_000 + digits_value(kept_fraction(s)) * pow10(
        (6 - kept_fraction(s).len()) as nat,
    )
}

/// What parsing a text yields: the exact value, or the first of the three
/// reasons for which there is none.
pub open spec fn parse_spec(s: Seq<u8>) -> Result<Decimal, DecodeError> {
    if !is_decimal_text(s) {
        Err(DecodeError::InvalidNumber)
    } else if !is_exact(s) {
        Err(DecodeError::TooPrecise)
    } else if text_units(s) > u64::MAX {
        Err(DecodeError::OutOfRange)
    } else {
        Ok(Decimal { units: text_units(s) as u64 })
    }
}

/// A text has at most one place where its whole part can end.
pub proof fn lemma_split_unique(s: Seq<u8>, a: int, b: int)
    requires
        splits_at(s, a),
        splits_at(s, b),
    ensures
        a == b,
{
    if a < b {
        assert(s.take(b)[a] == s[a]);
        assert(is_digit(s.take(b)[a]));
    } else if b < a {
        assert(s.take(a)[b] == s[b]);
        assert(is_digit(s.take(a)[b]));
    }
}

proof fn lemma_digits_step(s: Seq<u8>, i: int)
    requires
        0 <= i < s.len(),
    ensures
        digits_value(s.take(i + 1)) == digits_value(s.take(i)) * 10 + (s[i] - 48) as nat,
{
    assert(s.take(i + 1).drop_last() =~= s.take(i));
}

proof fn lemma_digits_monotone(s: Seq<u8>, i: int, j: int)
    requires
        0 <= i <= j <= s.len(),
        all_digits(s),
    ensures
        digits_value(s.take(i)) <= digits_value(s.take(j)),
    decreases j - i,
{
    if i < j {
        lemma_digits_monotone(s, i, j - 1);
        lemma_digits_step(s, j - 1);
        assert(is_digit(s[j - 1]));
    }
}

impl Decimal {
    /// The number nought.
    pub fn zero() -> (r: Decimal)
        ensures
            r.units == 0,
    {
        Decimal { units: 0 }
    }

    /// The fixed-point number that is `units` millionths.
    pub fn from_units(units: u64) -> (r: Decimal)
        ensures
            r.units == units,
    {
        Decimal { units }
    }

    /// Reads a decimal from its text, exactly or not at all.
    pub fn from_str(text: &str) -> (r: Result<Decimal, DecodeError>)
        ensures
            r == parse_spec(text.spec_bytes()),
    {
        parse_decimal(text.as_bytes())
    }

    pub fn is_zero(&self) -> (r: bool)
        ensures
            r == (self.units == 0),
    {
        self.units == 0
    }
}

fn is_digit_byte(b: u8) -> (r: bool)
    ensures
        r == is_digit(b),
{
    48 <= b && b <= 57
}

/// Reads a decimal from ASCII text, exactly or not at all: the text has to
/// be `digits` or `digits.digits`, may not carry a non-zero digit beyond the
/// sixth fractional one, and its value has to fit.
pub fn parse_decimal(text: &[u8]) -> (r: Result<Decimal, DecodeError>)
    ensures
        r == parse_spec(text@),
{
    let n: usize = text.len();
    let ghost s = text@;
    let mut dot: usize = 0;
    while dot < n && is_digit_byte(text[dot])
        invariant
            dot <= n,
            n == s.len(),
            s == text@,
            forall|j: int| 0 <= j < dot ==> is_digit(#[trigger] s[j]),
        decreases n - dot,
    {
        dot += 1;
    }
    if dot == 0 {
        proof {
            assert forall|d: int| !splits_at(s, d) by {
                if splits_at(s, d) {
                    assert(s.take(d)[0] == s[0]);
                    assert(is_digit(s.take(d)[0]));
                }
            }
        }
        return Err(DecodeError::InvalidNumber);
    }
    if dot < n {
        let mut bad: bool = text[dot] != 46 || dot + 1 == n;
        let mut j: usize = dot + 1;
        while !bad && j < n
            invariant
                dot < j <= n,
                n == s.len(),
                s == text@,
                !bad ==> forall|k: int| dot < k < j ==> is_digit(#[trigger] s[k]),
                !bad ==> s[dot as int] == 46 && dot + 1 < n,
                bad ==> (s[dot as int] != 46 || dot + 1 == n || exists|k: int|
                    dot < k < n && !is_digit(#[trigger] s[k])),
            decreases n - j + (if bad { 0int } else { 1int }),
        {
            if !is_digit_byte(text[j]) {
                bad = true;
            } else {
                j += 1;
            }
        }
        if bad {
            proof {
                assert forall|d: int| !splits_at(s, d) by {
                    if splits_at(s, d) {
                        if d < dot {
                            assert(is_digit(s[d]));
                        } else if d > dot {
                            assert(s.take(d)[dot as int] == s[dot as int]);
                            assert(is_digit(s.take(d)[dot as int]));
                        } else {
                            let k = choose|k: int| dot < k < n && !is_digit(#[trigger] s[k]);
                            assert(s.skip(d + 1)[k - d - 1] == s[k]);
                            assert(is_digit(s.skip(d + 1)[k - d - 1]));
                        }
                    }
                }
            }
            return Err(DecodeError::InvalidNumber);
        }
    }
    proof {
        assert(all_digits(s.take(dot as int)));
        if dot < n {
            assert(all_digits(s.skip(dot + 1)));
        }
        assert(splits_at(s, dot as int));
        lemma_split_unique(s, dot as int, dot_of(s));
    }
    let ghost whole = whole_part(s);
    let ghost frac = fraction_part(s);
    let ghost kept = kept_fraction(s);
    let frac_start: usize = if dot < n { dot + 1 } else { n };
    let frac_len: usize = n - frac_start;
    assert(frac =~= s.skip(frac_start as int));
    // digits beyond the kept precision
    if frac_len > FRACTION_DIGITS {
        let mut k: usize = frac_start + FRACTION_DIGITS;
        while k < n
            invariant
                frac_start + 6 <= k <= n,
                n == s.len(),
                s == text@,
                frac == s.skip(frac_start as int),
                frac == fraction_part(s),
                is_decimal_text(s),
                forall|i: int| 6 <= i < k - frac_start ==> #[trigger] frac[i] == 48,
            decreases n - k,
        {
            if text[k] != 48 {
                assert(frac[k - frac_start] != 48);
                return Err(DecodeError::TooPrecise);
            }
            k += 1;
        }
    }
    assert(is_exact(s));
    // the whole part
    let mut acc: u64 = 0;
    let mut i: usize = 0;
    while i < dot
        invariant
            i <= dot <= n,
            n == s.len(),
            s == text@,
            whole == s.take(dot as int),
            all_digits(whole),
            acc == digits_value(whole.take(i as int)),
            parse_spec(s) is Err ==> parse_spec(s) == Err::<Decimal, DecodeError>(
                DecodeError::OutOfRange,
            ) ,
            is_decimal_text(s),
            is_exact(s),
            whole == whole_part(s),
        decreases dot - i,
    {
        proof {
            assert(whole[i as int] == s[i as int]);
            assert(is_digit(whole[i as int]));
        }
        let d: u64 = (text[i] - 48) as u64;
        proof {
            lemma_digits_step(whole, i as int);
            lemma_digits_monotone(whole, i + 1, dot as int);
            assert(whole.take(dot as int) =~= whole);
        }
        if acc > (u64::MAX - d) / 10 {
            assert(digits_value(whole) > u64::MAX);
            assert(text_units(s) > u64::MAX) by (nonlinear_arith)
                requires
                    digits_value(whole_part(s)) > u64::MAX,
                    text_units(s) >= digits_value(whole_part(s)) * 1_000_000,
            ;
            return Err(DecodeError::OutOfRange);
        }
        acc = acc * 10 + d;
        i += 1;
    }
    assert(whole.take(dot as int) =~= whole);
    if acc > u64::MAX / SCALE {
        assert(text_units(s) > u64::MAX);
        return Err(DecodeError::OutOfRange);
    }
    let scaled: u64 = acc * SCALE;
    // the kept fraction, padded to full precision
    let kept_len: usize = if frac_len > FRACTION_DIGITS { FRACTION_DIGITS } else { frac_len };
    assert(kept =~= frac.take(kept_len as int));
    let mut part: u64 = 0;
    let mut c: usize = 0;
    proof {
        assert(all_digits(kept));
    }
    while c < kept_len
        invariant
            c <= kept_len <= 6,
            kept_len == kept.len(),
            frac_start + kept_len <= n,
            n == s.len(),
            s == text@,
            all_digits(kept),
            kept == s.skip(frac_start as int).take(kept_len as int),
            part == digits_value(kept.take(c as int)),
            part < pow10(c as nat),
            pow10(c as nat) <= 1_000_000,
        decreases kept_len - c,
    {
        proof {
            assert(kept[c as int] == s[frac_start + c]);
            assert(is_digit(kept[c as int]));
        }
        let d: u64 = (text[frac_start + c] - 48) as u64;
        proof {
            lemma_digits_step(kept, c as int);
            reveal_with_fuel(pow10, 8);
            assert(pow10((c + 1) as nat) == 10 * pow10(c as nat));
        }
        part = part * 10 + d;
        c += 1;
    }
    assert(kept.take(kept_len as int) =~= kept);
    let mut pad: usize = kept_len;
    let ghost base = part;
    proof {
        let unit = pow10((pad - kept_len) as nat);
        assert(unit == 1) by {
            reveal_with_fuel(pow10, 2);
        }
        assert(base * unit == base) by (nonlinear_arith)
            requires
                unit == 1,
        ;
    }
    while pad < FRACTION_DIGITS
        invariant
            kept_len <= pad <= 6,
            part == base * pow10((pad - kept_len) as nat),
            part < pow10(pad as nat),
            pow10(pad as nat) <= 1_000_000,
        decreases 6 - pad,
    {
        proof {
            reveal_with_fuel(pow10, 8);
            assert(pow10((pad + 1) as nat) == 10 * pow10(pad as nat));
            assert(pow10((pad + 1 - kept_len) as nat) == 10 * pow10((pad - kept_len) as nat));
            assert(base * (10 * pow10((pad - kept_len) as nat)) == 10 * (base * pow10(
                (pad - kept_len) as nat,
            ))) by (nonlinear_arith);
        }
        part = part * 10;
        pad += 1;
    }
    assert(text_units(s) == scaled + part);
    if part > u64::MAX - scaled {
        return Err(DecodeError::OutOfRange);
    }
    Ok(Decimal { units: scaled + part })
}

} // verus!
