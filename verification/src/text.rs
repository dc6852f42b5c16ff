use crate::decimal::{all_digits, digits_value, is_digit};
use crate::errors::DecodeError;
use vstd::prelude::*;
use vstd::string::StringSliceAdditionalSpecFns;
use vstd::utf8::{encode_utf8, encode_utf8_decode_utf8};

verus! {

/// The bytes that a text is written in.
pub open spec fn bytes_of(text: Seq<char>) -> Seq<u8> {
    encode_utf8(text)
}

/// Tells whether two byte strings are the same.
pub fn same_bytes(a: &[u8], b: &[u8]) -> (r: bool)
    ensures
        r == (a@ == b@),
{
    if a.len() != b.len() {
        return false;
    }
    let n: usize = a.len();
    let mut i: usize = 0;
    while i < n
        invariant
            i <= n,
            n == a@.len(),
            n == b@.len(),
            forall|j: int| 0 <= j < i ==> a@[j] == b@[j],
        decreases n - i,
    {
        if a[i] != b[i] {
            return false;
        }
        i += 1;
    }
    proof {
        assert(a@ =~= b@);
    }
    true
}

/// Tells whether two texts are the same.
pub fn same_text(a: &str, b: &str) -> (r: bool)
    ensures
        r == (a@ == b@),
{
    proof {
        encode_utf8_decode_utf8(a@);
        encode_utf8_decode_utf8(b@);
    }
    same_bytes(a.as_bytes(), b.as_bytes())
}

/// The texts of a list of strings.
pub open spec fn names(ids: Seq<String>) -> Seq<Seq<char>> {
    Seq::new(ids.len(), |i: int| ids[i]@)
}

/// Copies a list of strings.
pub fn copy_names(ids: &Vec<String>) -> (r: Vec<String>)
    ensures
        r@ == ids@,
{
    let mut out: Vec<String> = Vec::new();
    let n: usize = ids.len();
    let mut i: usize = 0;
    while i < n
        invariant
            i <= n,
            n == ids@.len(),
            out@ == ids@.take(i as int),
        decreases n - i,
    {
        out.push(ids[i].clone());
        proof {
            assert(out@ =~= ids@.take(i + 1));
        }
        i += 1;
    }
    proof {
        assert(ids@.take(n as int) =~= ids@);
    }
    out
}

/// Tells whether a text is one of a list.
pub fn has_name(ids: &Vec<String>, name: &str) -> (r: bool)
    ensures
        r == names(ids@).contains(name@),
{
    let n: usize = ids.len();
    let mut i: usize = 0;
    while i < n
        invariant
            i <= n,
            n == ids@.len(),
            forall|j: int| 0 <= j < i ==> (#[trigger] ids@[j])@ != name@,
        decreases n - i,
    {
        if same_text(ids[i].as_str(), name) {
            assert(names(ids@)[i as int] == name@);
            return true;
        }
        i += 1;
    }
    proof {
        if names(ids@).contains(name@) {
            let j = choose|j: int| 0 <= j < names(ids@).len() && names(ids@)[j] == name@;
            assert(ids@[j]@ != name@);
        }
    }
    false
}

/// What reading a whole number from a text yields: its value, where the
/// text is one or more digits and the value fits.
pub open spec fn integer_spec(s: Seq<u8>) -> Result<u64, DecodeError> {
    if s.len() == 0 || !all_digits(s) {
        Err(DecodeError::InvalidNumber)
    } else if digits_value(s) > u64::MAX {
        Err(DecodeError::OutOfRange)
    } else {
        Ok(digits_value(s) as u64)
    }
}

/// Reads a whole number from ASCII text.
pub fn parse_integer(text: &[u8]) -> (r: Result<u64, DecodeError>)
    ensures
        r == integer_spec(text@),
{
    let n: usize = text.len();
    let ghost s = text@;
    if n == 0 {
        return Err(DecodeError::InvalidNumber);
    }
    let mut k: usize = 0;
    while k < n
        invariant
            k <= n,
            n == s.len(),
            s == text@,
            forall|j: int| 0 <= j < k ==> is_digit(#[trigger] s[j]),
        decreases n - k,
    {
        if !(48 <= text[k] && text[k] <= 57) {
            assert(!is_digit(s[k as int]));
            return Err(DecodeError::InvalidNumber);
        }
        k += 1;
    }
    assert(all_digits(s));
    let mut acc: u64 = 0;
    let mut i: usize = 0;
    proof {
        assert(s.take(0) =~= Seq::<u8>::empty());
    }
    while i < n
        invariant
            i <= n,
            n == s.len(),
            s == text@,
            all_digits(s),
            acc == digits_value(s.take(i as int)),
        decreases n - i,
    {
        proof {
            assert(is_digit(s[i as int]));
            assert(s.take(i + 1).drop_last() =~= s.take(i as int));
            lemma_prefix_value(s, i + 1);
        }
        let d: u64 = (text[i] - 48) as u64;
        if acc > (u64::MAX - d) / 10 {
            return Err(DecodeError::OutOfRange);
        }
        acc = acc * 10 + d;
        i += 1;
    }
    proof {
        assert(s.take(n as int) =~= s);
    }
    Ok(acc)
}

/// The number that a run of digits writes is no less than the number that
/// any of its prefixes writes.
proof fn lemma_prefix_value(s: Seq<u8>, i: int)
    requires
        all_digits(s),
        0 <= i <= s.len(),
    ensures
        digits_value(s.take(i)) <= digits_value(s),
    decreases s.len() - i,
{
    if i < s.len() {
        lemma_prefix_value(s, i + 1);
        assert(s.take(i + 1).drop_last() =~= s.take(i));
        assert(is_digit(s[i]));
    } else {
        assert(s.take(i) =~= s);
    }
}

} // verus!
