use vstd::prelude::*;

verus! {

/// Two to the power `n`.
pub open spec fn pow2(n: nat) -> nat
    decreases n,
{
    if n == 0 {
        1
    } else {
        2 * pow2((n - 1) as nat)
    }
}

/// A first delay doubled `attempt` times, capped.
pub open spec fn doubled(first: u64, cap: u64, attempt: u32) -> nat {
    if (first as nat) * pow2(attempt as nat) >= cap {
        cap as nat
    } else {
        (first as nat) * pow2(attempt as nat)
    }
}

/// Powers of two are positive and grow with the exponent.
pub proof fn lemma_pow2_monotone(a: nat, b: nat)
    requires
        a <= b,
    ensures
        pow2(a) <= pow2(b),
        pow2(a) > 0,
    decreases b,
{
    if a < b {
        lemma_pow2_monotone(a, (b - 1) as nat);
    } else if a > 0 {
        lemma_pow2_monotone((a - 1) as nat, (a - 1) as nat);
    }
}

/// The capped, doubled delay never shrinks from one attempt to the next,
/// and never exceeds the cap.
pub proof fn lemma_doubled_monotone(first: u64, cap: u64, attempt: u32)
    requires
        attempt < u32::MAX,
    ensures
        doubled(first, cap, attempt) <= doubled(first, cap, (attempt + 1) as u32),
        doubled(first, cap, attempt) <= cap,
{
    lemma_pow2_monotone(attempt as nat, (attempt + 1) as nat);
    assert(first * pow2(attempt as nat) <= first * pow2((attempt + 1) as nat)) by (nonlinear_arith)
        requires
            pow2(attempt as nat) <= pow2((attempt + 1) as nat),
            first >= 0,
    ;
}

/// Computes [`doubled`].
pub fn doubled_delay(first: u64, cap: u64, attempt: u32) -> (r: u64)
    requires
        0 < first <= cap,
    ensures
        r == doubled(first, cap, attempt),
        first <= r <= cap,
{
    let mut base: u64 = first;
    let mut k: u32 = 0;
    proof {
        assert(first * pow2(0) == first) by {
            reveal_with_fuel(pow2, 1);
            assert(pow2(0) == 1);
            assert(first * 1 == first);
        }
    }
    while k < attempt && base < cap
        invariant
            k <= attempt,
            0 < first <= cap,
            first <= base <= cap,
            base < cap ==> base == first * pow2(k as nat),
            base == cap ==> first * pow2(k as nat) >= cap,
        decreases attempt - k,
    {
        proof {
            assert(pow2((k + 1) as nat) == 2 * pow2(k as nat));
            assert(first * (2 * pow2(k as nat)) == 2 * (first * pow2(k as nat)))
                by (nonlinear_arith);
        }
        if base > cap / 2 {
            base = cap;
        } else {
            base = base * 2;
        }
        k += 1;
    }
    proof {
        lemma_pow2_monotone(k as nat, attempt as nat);
        assert(first * pow2(k as nat) <= first * pow2(attempt as nat)) by (nonlinear_arith)
            requires
                pow2(k as nat) <= pow2(attempt as nat),
                first >= 0,
        ;
    }
    base
}

} // verus!
