use crate::decimal::Decimal;
use crate::seqs::{lemma_filter_head, lemma_filter_tail};
use crate::types::{PriceLevel, Side};
use vstd::prelude::*;

verus! {

/// On the ladder of `side`, price `a` stands strictly nearer to the top than
/// `b`: higher for bids, lower for asks.
pub open spec fn outranks(side: Side, a: Decimal, b: Decimal) -> bool {
    match side {
        Side::BUY => a.units > b.units,
        Side::SELL => a.units < b.units,
    }
}

/// A ladder: levels in strict price priority, best first, none empty. Strict
/// order makes every price occur at most once.
#[verifier::opaque]
pub open spec fn is_ladder(side: Side, s: Seq<PriceLevel>) -> bool {
    &&& forall|i: int, j: int|
        0 <= i < j < s.len() ==> outranks(side, #[trigger] s[i].price, #[trigger] s[j].price)
    &&& forall|i: int| 0 <= i < s.len() ==> (#[trigger] s[i]).size.units > 0
}

/// The size resting at `price`, nought where the ladder has no such level.
pub open spec fn size_at(s: Seq<PriceLevel>, price: Decimal) -> nat {
    if exists|i: int| 0 <= i < s.len() && (#[trigger] s[i]).price == price {
        let i = choose|i: int| 0 <= i < s.len() && (#[trigger] s[i]).price == price;
        s[i].size.units as nat
    } else {
        0
    }
}

/// The ladder with the level at `price` set to `size`: the levels that
/// outrank the price, then the new level unless its size is nought, then the
/// levels that the price outranks. Whatever stood at that price is gone.
pub open spec fn ladder_put(side: Side, s: Seq<PriceLevel>, price: Decimal, size: Decimal) -> Seq<
    PriceLevel,
> {
    s.filter(|l: PriceLevel| outranks(side, l.price, price)) + (if size.units > 0 {
        seq![PriceLevel { price, size }]
    } else {
        Seq::empty()
    }) + s.filter(|l: PriceLevel| outranks(side, price, l.price))
}

/// The best `depth` levels.
pub open spec fn trimmed(s: Seq<PriceLevel>, depth: nat) -> Seq<PriceLevel> {
    if s.len() <= depth {
        s
    } else {
        s.take(depth as int)
    }
}

/// One update of a depth-bounded ladder: set the level, then keep the best
/// `depth`.
pub open spec fn ladder_set(
    side: Side,
    s: Seq<PriceLevel>,
    price: Decimal,
    size: Decimal,
    depth: nat,
) -> Seq<PriceLevel> {
    trimmed(ladder_put(side, s, price, size), depth)
}

/// The ladder that a list of levels, in any order, describes: each level is
/// put in turn, so of two entries for one price the later stands.
pub open spec fn ladder_of(side: Side, levels: Seq<PriceLevel>) -> Seq<PriceLevel>
    decreases levels.len(),
{
    if levels.len() == 0 {
        Seq::empty()
    } else {
        ladder_put(side, ladder_of(side, levels.drop_last()), levels.last().price, levels.last().size)
    }
}

/// The sum of the sizes of all levels.
pub open spec fn total_size(s: Seq<PriceLevel>) -> nat
    decreases s.len(),
{
    if s.len() == 0 {
        0
    } else {
        total_size(s.drop_last()) + s.last().size.units as nat
    }
}

/// On a ladder, putting a level comes to cutting the ladder at the place
/// `k` where the price belongs, dropping the level that stood there under the
/// same price, if any, and setting the new level in between.
pub proof fn lemma_put_at(side: Side, s: Seq<PriceLevel>, price: Decimal, size: Decimal, k: int)
    requires
        is_ladder(side, s),
        0 <= k <= s.len(),
        forall|i: int| 0 <= i < k ==> outranks(side, (#[trigger] s[i]).price, price),
        k < s.len() ==> !outranks(side, s[k].price, price),
    ensures
        ladder_put(side, s, price, size) == s.take(k) + (if size.units > 0 {
            seq![PriceLevel { price, size }]
        } else {
            Seq::empty()
        }) + s.skip(
            if k < s.len() && s[k].price == price {
                k + 1
            } else {
                k
            },
        ),
        forall|i: int|
            k <= i < s.len() && (#[trigger] s[i]).price != price ==> outranks(
                side,
                price,
                s[i].price,
            ),
{
    reveal(is_ladder);
    let above = |l: PriceLevel| outranks(side, l.price, price);
    let below = |l: PriceLevel| outranks(side, price, l.price);
    let k2 = if k < s.len() && s[k].price == price {
        k + 1
    } else {
        k
    };
    assert forall|i: int| k <= i < s.len() implies !above(#[trigger] s[i]) by {
        if i > k {
            assert(outranks(side, s[k].price, s[i].price));
        }
    }
    lemma_filter_head(s, above, k);
    assert forall|i: int| 0 <= i < k2 implies !below(#[trigger] s[i]) by {}
    assert forall|i: int| k2 <= i < s.len() implies below(#[trigger] s[i]) by {
        if i > k {
            assert(outranks(side, s[k].price, s[i].price));
        }
    }
    lemma_filter_tail(s, below, k2);
}

/// Putting a level into a ladder yields a ladder.
pub proof fn lemma_put_is_ladder(side: Side, s: Seq<PriceLevel>, price: Decimal, size: Decimal)
    requires
        is_ladder(side, s),
    ensures
        is_ladder(side, ladder_put(side, s, price, size)),
        ladder_put(side, s, price, size).len() <= s.len() + 1,
{
    reveal(is_ladder);
    let k = place_of(side, s, price);
    lemma_place_of(side, s, price);
    lemma_put_at(side, s, price, size, k);
    let mid = if size.units > 0 {
        seq![PriceLevel { price, size }]
    } else {
        Seq::empty()
    };
    let k2 = if k < s.len() && s[k].price == price {
        k + 1
    } else {
        k
    };
    let r = s.take(k) + mid + s.skip(k2);
    assert forall|i: int, j: int| 0 <= i < j < r.len() implies outranks(
        side,
        #[trigger] r[i].price,
        #[trigger] r[j].price,
    ) by {
        if j >= k + mid.len() {
            assert(r[j] == s[j - k - mid.len() + k2]);
            assert(outranks(side, price, r[j].price)) by {
                if j - k - mid.len() + k2 > k {
                    assert(outranks(side, s[k].price, s[j - k - mid.len() + k2].price));
                }
            }
        }
    }
}

/// The first place of a ladder whose level does not outrank `price`.
pub open spec fn place_of(side: Side, s: Seq<PriceLevel>, price: Decimal) -> int
    decreases s.len(),
{
    if s.len() == 0 {
        0
    } else if outranks(side, s.last().price, price) {
        s.len() as int
    } else {
        place_of(side, s.drop_last(), price)
    }
}

/// What the place of a price in a ladder is: every level before it outranks
/// the price, and the level at it, if any, does not.
pub proof fn lemma_place_of(side: Side, s: Seq<PriceLevel>, price: Decimal)
    requires
        is_ladder(side, s),
    ensures
        0 <= place_of(side, s, price) <= s.len(),
        forall|i: int|
            0 <= i < place_of(side, s, price) ==> outranks(side, (#[trigger] s[i]).price, price),
        place_of(side, s, price) < s.len() ==> !outranks(
            side,
            s[place_of(side, s, price)].price,
            price,
        ),
    decreases s.len(),
{
    reveal(is_ladder);
    if s.len() > 0 {
        if outranks(side, s.last().price, price) {
            assert forall|i: int| 0 <= i < s.len() implies outranks(
                side,
                (#[trigger] s[i]).price,
                price,
            ) by {
                if i < s.len() - 1 {
                    assert(outranks(side, s[i].price, s[s.len() - 1].price));
                }
            }
        } else {
            let t = s.drop_last();
            assert(is_ladder(side, t)) by {
                assert forall|i: int, j: int| 0 <= i < j < t.len() implies outranks(
                    side,
                    #[trigger] t[i].price,
                    #[trigger] t[j].price,
                ) by {
                    assert(t[i] == s[i] && t[j] == s[j]);
                }
                assert forall|i: int| 0 <= i < t.len() implies (#[trigger] t[i]).size.units
                    > 0 by {
                    assert(t[i] == s[i]);
                }
            }
            lemma_place_of(side, t, price);
            let k = place_of(side, t, price);
            assert forall|i: int| 0 <= i < k implies outranks(
                side,
                (#[trigger] s[i]).price,
                price,
            ) by {
                assert(t[i] == s[i]);
            }
            if k < t.len() {
                assert(t[k] == s[k]);
            }
        }
    }
}

fn outranks_exec(side: Side, a: Decimal, b: Decimal) -> (r: bool)
    ensures
        r == outranks(side, a, b),
{
    match side {
        Side::BUY => a.units > b.units,
        Side::SELL => a.units < b.units,
    }
}

fn replace_at(ladder: &mut Vec<PriceLevel>, k: usize, level: PriceLevel)
    requires
        k < old(ladder)@.len(),
    ensures
        final(ladder)@ == old(ladder)@.update(k as int, level),
{
    ladder[k] = level;
}

/// Sets the level at `price` of a ladder to `size`.
fn put_level(side: Side, ladder: &mut Vec<PriceLevel>, price: Decimal, size: Decimal)
    requires
        is_ladder(side, old(ladder)@),
    ensures
        final(ladder)@ == ladder_put(side, old(ladder)@, price, size),
{
    let ghost s = ladder@;
    let n: usize = ladder.len();
    let mut k: usize = 0;
    while k < n && outranks_exec(side, ladder[k].price, price)
        invariant
            k <= n,
            n == s.len(),
            ladder@ == s,
            forall|i: int| 0 <= i < k ==> outranks(side, (#[trigger] s[i]).price, price),
        decreases n - k,
    {
        k += 1;
    }
    proof {
        lemma_put_forms(side, s, price, size, k as int);
    }
    let present: bool = k < n && ladder[k].price.units == price.units;
    if present {
        if size.units == 0 {
            ladder.remove(k);
        } else {
            replace_at(ladder, k, PriceLevel { price, size });
        }
    } else if size.units > 0 {
        ladder.insert(k, PriceLevel { price, size });
    }
}

/// Sets the level at `price` of a depth-bounded ladder to `size` and evicts
/// what then lies beyond the bound, the levels farthest from the top first.
pub fn set_level(
    side: Side,
    ladder: &mut Vec<PriceLevel>,
    price: Decimal,
    size: Decimal,
    depth: usize,
)
    requires
        is_ladder(side, old(ladder)@),
    ensures
        final(ladder)@ == ladder_set(side, old(ladder)@, price, size, depth as nat),
        is_ladder(side, final(ladder)@),
        final(ladder)@.len() <= depth,
{
    proof {
        lemma_put_is_ladder(side, ladder@, price, size);
        lemma_trimmed_is_ladder(side, ladder_put(side, ladder@, price, size), depth as nat);
    }
    put_level(side, ladder, price, size);
    if ladder.len() > depth {
        ladder.truncate(depth);
    }
}

/// The same as [`lemma_put_at`], in the shape of the edits of a sequence.
proof fn lemma_put_forms(side: Side, s: Seq<PriceLevel>, price: Decimal, size: Decimal, k: int)
    requires
        is_ladder(side, s),
        0 <= k <= s.len(),
        forall|i: int| 0 <= i < k ==> outranks(side, (#[trigger] s[i]).price, price),
        k < s.len() ==> !outranks(side, s[k].price, price),
    ensures
        ladder_put(side, s, price, size) == (if k < s.len() && s[k].price == price {
            if size.units == 0 {
                s.remove(k)
            } else {
                s.update(k, PriceLevel { price, size })
            }
        } else {
            if size.units == 0 {
                s
            } else {
                s.insert(k, PriceLevel { price, size })
            }
        }),
{
    reveal(is_ladder);
    lemma_put_at(side, s, price, size, k);
    let level = PriceLevel { price, size };
    if k < s.len() && s[k].price == price {
        if size.units == 0 {
            assert(s.take(k) + Seq::<PriceLevel>::empty() + s.skip(k + 1) =~= s.remove(k));
        } else {
            assert(s.take(k) + seq![level] + s.skip(k + 1) =~= s.update(k, level));
        }
    } else {
        if size.units == 0 {
            assert(s.take(k) + Seq::<PriceLevel>::empty() + s.skip(k) =~= s);
        } else {
            assert(s.take(k) + seq![level] + s.skip(k) =~= s.insert(k, level));
        }
    }
}

/// The best levels of a ladder are a ladder.
pub proof fn lemma_trimmed_is_ladder(side: Side, s: Seq<PriceLevel>, depth: nat)
    requires
        is_ladder(side, s),
    ensures
        is_ladder(side, trimmed(s, depth)),
        trimmed(s, depth).len() <= depth,
        trimmed(s, depth).len() <= s.len(),
{
    reveal(is_ladder);
    let t = trimmed(s, depth);
    assert forall|i: int, j: int| 0 <= i < j < t.len() implies outranks(
        side,
        #[trigger] t[i].price,
        #[trigger] t[j].price,
    ) by {
        assert(t[i] == s[i] && t[j] == s[j]);
    }
    assert forall|i: int| 0 <= i < t.len() implies (#[trigger] t[i]).size.units > 0 by {
        assert(t[i] == s[i]);
    }
}

/// On a ladder a price is found at one place at most, so the size at the
/// price of a level is that level's size.
pub proof fn lemma_size_at_index(side: Side, s: Seq<PriceLevel>, i: int)
    requires
        is_ladder(side, s),
        0 <= i < s.len(),
    ensures
        size_at(s, s[i].price) == s[i].size.units,
{
    reveal(is_ladder);
    let j = choose|j: int| 0 <= j < s.len() && (#[trigger] s[j]).price == s[i].price;
    if j < i {
        assert(outranks(side, s[j].price, s[i].price));
    } else if i < j {
        assert(outranks(side, s[i].price, s[j].price));
    }
}

/// What putting a level does to a ladder, read as a mapping from price to
/// size: the size at the price that was put is the size that was put (nought
/// when the level was removed), whatever stood there before; the size at
/// every other price is what it was.
pub proof fn lemma_put_content(
    side: Side,
    s: Seq<PriceLevel>,
    price: Decimal,
    size: Decimal,
    x: Decimal,
)
    requires
        is_ladder(side, s),
    ensures
        size_at(ladder_put(side, s, price, size), x) == (if x == price {
            size.units as nat
        } else {
            size_at(s, x)
        }),
{
    let k = place_of(side, s, price);
    lemma_place_of(side, s, price);
    lemma_put_at(side, s, price, size, k);
    lemma_put_is_ladder(side, s, price, size);
    let r = ladder_put(side, s, price, size);
    let level = PriceLevel { price, size };
    let m: int = if size.units > 0 {
        1
    } else {
        0
    };
    let k2 = if k < s.len() && s[k].price == price {
        k + 1
    } else {
        k
    };
    if exists|i: int| 0 <= i < r.len() && (#[trigger] r[i]).price == x {
        let i = choose|i: int| 0 <= i < r.len() && (#[trigger] r[i]).price == x;
        lemma_size_at_index(side, r, i);
        if i < k {
            assert(r[i] == s[i]);
            lemma_size_at_index(side, s, i);
        } else if i < k + m {
            assert(r[i] == level);
        } else {
            let j = i - k - m + k2;
            assert(r[i] == s[j]);
            lemma_size_at_index(side, s, j);
        }
    } else {
        if x == price {
            if size.units > 0 {
                assert(r[k] == level);
            }
        } else {
            if exists|j: int| 0 <= j < s.len() && (#[trigger] s[j]).price == x {
                let j = choose|j: int| 0 <= j < s.len() && (#[trigger] s[j]).price == x;
                if j < k {
                    assert(r[j] == s[j]);
                } else {
                    assert(j >= k2);
                    assert(r[j - k2 + k + m] == s[j]);
                }
            }
        }
    }
}

/// A delta of size nought removes the level at its price, and a level put
/// at that price afterwards is a new one: the ladder is the same as if the
/// level had been put without the removal before it.
pub proof fn lemma_put_after_remove(side: Side, s: Seq<PriceLevel>, price: Decimal, size: Decimal)
    requires
        is_ladder(side, s),
    ensures
        size_at(ladder_put(side, s, price, Decimal { units: 0 }), price) == 0,
        forall|i: int|
            0 <= i < ladder_put(side, s, price, Decimal { units: 0 }).len() ==> (
            #[trigger] ladder_put(side, s, price, Decimal { units: 0 })[i]).price != price,
        ladder_put(side, ladder_put(side, s, price, Decimal { units: 0 }), price, size)
            == ladder_put(side, s, price, size),
        size_at(
            ladder_put(side, ladder_put(side, s, price, Decimal { units: 0 }), price, size),
            price,
        ) == size.units,
{
    let zero = Decimal { units: 0 };
    let k = place_of(side, s, price);
    lemma_place_of(side, s, price);
    lemma_put_at(side, s, price, zero, k);
    lemma_put_at(side, s, price, size, k);
    lemma_put_is_ladder(side, s, price, zero);
    let t = ladder_put(side, s, price, zero);
    let k2 = if k < s.len() && s[k].price == price {
        k + 1
    } else {
        k
    };
    assert(t =~= s.take(k) + s.skip(k2));
    assert forall|i: int| 0 <= i < t.len() implies (#[trigger] t[i]).price != price by {
        if i < k {
            assert(t[i] == s[i]);
        } else {
            assert(t[i] == s[i - k + k2]);
        }
    }
    lemma_put_content(side, s, price, zero, price);
    assert forall|i: int| 0 <= i < k implies outranks(side, (#[trigger] t[i]).price, price) by {
        assert(t[i] == s[i]);
    }
    if k < t.len() {
        assert(t[k] == s[k2]);
    }
    lemma_put_at(side, t, price, size, k);
    assert(t.take(k) =~= s.take(k));
    assert(t.skip(k) =~= s.skip(k2));
    lemma_put_content(side, t, price, size, price);
}

/// The depth bound at work. A full ladder that is handed a level at a price
/// it does not hold keeps exactly as many levels as the bound allows: the
/// levels of the ladder and the new one, but for the single level that
/// stands last in price priority, which every level that stays outranks.
pub proof fn lemma_eviction(
    side: Side,
    s: Seq<PriceLevel>,
    price: Decimal,
    size: Decimal,
    depth: nat,
)
    requires
        is_ladder(side, s),
        s.len() == depth,
        size.units > 0,
        forall|i: int| 0 <= i < s.len() ==> (#[trigger] s[i]).price != price,
    ensures
        ladder_put(side, s, price, size).len() == depth + 1,
        ladder_set(side, s, price, size, depth) == ladder_put(side, s, price, size).drop_last(),
        ladder_set(side, s, price, size, depth).len() == depth,
        forall|i: int|
            0 <= i < depth ==> outranks(
                side,
                (#[trigger] ladder_set(side, s, price, size, depth)[i]).price,
                ladder_put(side, s, price, size).last().price,
            ),
{
    let k = place_of(side, s, price);
    lemma_place_of(side, s, price);
    lemma_put_forms(side, s, price, size, k);
    lemma_put_is_ladder(side, s, price, size);
    let full = ladder_put(side, s, price, size);
    let kept = ladder_set(side, s, price, size, depth);
    assert(full == s.insert(k, PriceLevel { price, size }));
    assert(kept =~= full.drop_last());
    assert forall|i: int| 0 <= i < depth implies outranks(
        side,
        (#[trigger] kept[i]).price,
        full.last().price,
    ) by {
        reveal(is_ladder);
        assert(kept[i] == full[i]);
        assert(outranks(side, full[i].price, full[full.len() - 1].price));
    }
}

/// A prefix of a ladder is a ladder.
pub proof fn lemma_prefix_is_ladder(side: Side, s: Seq<PriceLevel>, n: int)
    requires
        is_ladder(side, s),
        0 <= n <= s.len(),
    ensures
        is_ladder(side, s.take(n)),
{
    reveal(is_ladder);
    let t = s.take(n);
    assert forall|i: int, j: int| 0 <= i < j < t.len() implies outranks(
        side,
        #[trigger] t[i].price,
        #[trigger] t[j].price,
    ) by {
        assert(t[i] == s[i] && t[j] == s[j]);
    }
    assert forall|i: int| 0 <= i < t.len() implies (#[trigger] t[i]).size.units > 0 by {
        assert(t[i] == s[i]);
    }
}

/// Whatever the list, the ladder that it describes is a ladder.
pub proof fn lemma_ladder_of_is_ladder(side: Side, levels: Seq<PriceLevel>)
    ensures
        is_ladder(side, ladder_of(side, levels)),
    decreases levels.len(),
{
    if levels.len() == 0 {
        reveal(is_ladder);
    } else {
        lemma_ladder_of_is_ladder(side, levels.drop_last());
        lemma_put_is_ladder(
            side,
            ladder_of(side, levels.drop_last()),
            levels.last().price,
            levels.last().size,
        );
    }
}

/// A list of levels that is a ladder already describes itself.
pub proof fn lemma_ladder_of_ladder(side: Side, s: Seq<PriceLevel>)
    requires
        is_ladder(side, s),
    ensures
        ladder_of(side, s) == s,
    decreases s.len(),
{
    if s.len() > 0 {
        let t = s.drop_last();
        lemma_prefix_is_ladder(side, s, s.len() - 1);
        lemma_ladder_of_ladder(side, t);
        let last = s.last();
        assert forall|i: int| 0 <= i < t.len() implies outranks(
            side,
            (#[trigger] t[i]).price,
            last.price,
        ) by {
            reveal(is_ladder);
            assert(t[i] == s[i]);
            assert(outranks(side, s[i].price, s[s.len() - 1].price));
        }
        lemma_put_forms(side, t, last.price, last.size, t.len() as int);
        assert(last.size.units > 0) by {
            reveal(is_ladder);
        }
        assert(t.insert(t.len() as int, PriceLevel { price: last.price, size: last.size }) =~= s);
    }
}

/// Builds the depth-bounded ladder that a list of levels describes.
pub fn build_ladder(side: Side, levels: &Vec<PriceLevel>, depth: usize) -> (r: Vec<PriceLevel>)
    ensures
        r@ == trimmed(ladder_of(side, levels@), depth as nat),
        is_ladder(side, r@),
        r@.len() <= depth,
{
    let mut built: Vec<PriceLevel> = Vec::new();
    let n: usize = levels.len();
    let mut i: usize = 0;
    proof {
        reveal(is_ladder);
        assert(levels@.take(0) =~= Seq::<PriceLevel>::empty());
    }
    while i < n
        invariant
            i <= n,
            n == levels@.len(),
            built@ == ladder_of(side, levels@.take(i as int)),
            is_ladder(side, built@),
        decreases n - i,
    {
        proof {
            lemma_put_is_ladder(side, built@, levels@[i as int].price, levels@[i as int].size);
            assert(levels@.take(i + 1).drop_last() =~= levels@.take(i as int));
        }
        put_level(side, &mut built, levels[i].price, levels[i].size);
        i += 1;
    }
    proof {
        assert(levels@.take(n as int) =~= levels@);
        lemma_trimmed_is_ladder(side, built@, depth as nat);
    }
    if built.len() > depth {
        built.truncate(depth);
    }
    built
}

/// Copies a ladder and adds up its sizes.
pub fn copy_levels(levels: &Vec<PriceLevel>) -> (r: (Vec<PriceLevel>, u128))
    ensures
        r.0@ == levels@,
        r.1 == total_size(levels@),
{
    let mut out: Vec<PriceLevel> = Vec::new();
    let mut total: u128 = 0;
    let n: usize = levels.len();
    let mut i: usize = 0;
    proof {
        assert(levels@.take(0) =~= Seq::<PriceLevel>::empty());
    }
    while i < n
        invariant
            i <= n,
            n == levels@.len(),
            out@ == levels@.take(i as int),
            total == total_size(levels@.take(i as int)),
            total <= i * u64::MAX,
        decreases n - i,
    {
        proof {
            assert(levels@.take(i + 1).drop_last() =~= levels@.take(i as int));
            assert((i + 1) * u64::MAX == i * u64::MAX + u64::MAX) by (nonlinear_arith);
            assert(i * u64::MAX + u64::MAX <= u128::MAX) by (nonlinear_arith)
                requires
                    i < usize::MAX,
                    usize::MAX <= u64::MAX,
            ;
        }
        out.push(levels[i]);
        total = total + levels[i].size.units as u128;
        proof {
            assert(out@ =~= levels@.take(i + 1));
        }
        i += 1;
    }
    proof {
        assert(levels@.take(n as int) =~= levels@);
    }
    (out, total)
}

} // verus!
