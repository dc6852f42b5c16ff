use crate::book::OrderBookSummary;
use crate::decimal::Decimal;
use crate::ladder::{is_ladder, outranks, total_size};
use crate::text::same_text;
use crate::types::{PriceLevel, Side};
use vstd::prelude::*;

verus! {

/// How a simulated order ended.
#[derive(Clone, Copy, Debug, PartialEq, Eq, Structural)]
pub enum FillStatus {
    /// The whole size was filled.
    Filled,
    /// The walk stopped at a level beyond the limit price with size left.
    LimitReached,
    /// The ladder ran out before the size was filled. This is an ordinary
    /// result: what was filled so far stands in it.
    InsufficientLiquidity,
}

/// What a simulated order would get.
#[derive(Clone, Copy, Debug, PartialEq, Eq, Structural)]
pub struct FillResult {
    /// Size filled.
    pub filled: Decimal,
    /// Size asked for and not filled.
    pub remaining: Decimal,
    /// Sum over the fills of price times size, in units of price times units
    /// of size.
    pub notional: u128,
    /// Volume-weighted average price of the fills, rounded down to the
    /// precision of a price; none where nothing was filled.
    pub average_price: Option<Decimal>,
    /// Average price less the best opposing price at the start, in units of
    /// price; none where nothing was filled.
    pub slippage: Option<i128>,
    pub status: FillStatus,
}

/// What a walk over a ladder collects.
pub struct Walk {
    pub filled: nat,
    pub notional: nat,
    /// The walk ended at a level beyond the limit while size was left.
    pub blocked: bool,
}

/// For an order of `side`, `price` is worse than the limit allows: above it
/// for a buy, below it for a sell. Without a limit no price is.
pub open spec fn past_limit(side: Side, price: Decimal, limit: Option<Decimal>) -> bool {
    match limit {
        None => false,
        Some(l) => match side {
            Side::BUY => price.units > l.units,
            Side::SELL => price.units < l.units,
        },
    }
}

/// The part of a level that an order still wanting `want` takes.
pub open spec fn taken(level: PriceLevel, want: nat) -> nat {
    if level.size.units <= want {
        level.size.units as nat
    } else {
        want
    }
}

/// Walks the ladder from its best level outward for an order of `side` that
/// wants `want`: each level gives what it has or what is still wanted,
/// whichever is less; the walk ends when nothing is wanted any more, at the
/// first level beyond the limit, or with the ladder.
pub open spec fn walk(side: Side, levels: Seq<PriceLevel>, limit: Option<Decimal>, want: nat) -> Walk
    decreases levels.len(),
{
    if levels.len() == 0 || want == 0 {
        Walk { filled: 0, notional: 0, blocked: false }
    } else if past_limit(side, levels[0].price, limit) {
        Walk { filled: 0, notional: 0, blocked: true }
    } else {
        let take = taken(levels[0], want);
        let rest = walk(side, levels.skip(1), limit, (want - take) as nat);
        Walk {
            filled: take + rest.filled,
            notional: take * (levels[0].price.units as nat) + rest.notional,
            blocked: rest.blocked,
        }
    }
}

/// The result of an order of `side` and `size` against the ladder it trades
/// with.
pub open spec fn fill_of(
    side: Side,
    levels: Seq<PriceLevel>,
    limit: Option<Decimal>,
    size: Decimal,
) -> FillResult {
    let w = walk(side, levels, limit, size.units as nat);
    FillResult {
        filled: Decimal { units: w.filled as u64 },
        remaining: Decimal { units: (size.units - w.filled) as u64 },
        notional: w.notional as u128,
        average_price: if w.filled > 0 {
            Some(Decimal { units: (w.notional / w.filled) as u64 })
        } else {
            None
        },
        slippage: if w.filled > 0 {
            Some((w.notional / w.filled - levels[0].price.units) as i128)
        } else {
            None
        },
        status: if w.filled == size.units {
            FillStatus::Filled
        } else if w.blocked {
            FillStatus::LimitReached
        } else {
            FillStatus::InsufficientLiquidity
        },
    }
}

/// The ladder that an order of `side` in instrument `token` trades with in a
/// snapshot: the asks for a buy, the bids for a sell, and nothing where the
/// snapshot is of another instrument.
pub open spec fn opposing(snapshot: &OrderBookSummary, token: Seq<char>, side: Side) -> Seq<
    PriceLevel,
> {
    if snapshot.token_id@ != token {
        Seq::empty()
    } else {
        match side {
            Side::BUY => snapshot.asks@,
            Side::SELL => snapshot.bids@,
        }
    }
}

/// A walk fills no more than is wanted, and what it pays per unit is no more
/// than the largest price there is.
pub proof fn lemma_walk_bounds(
    side: Side,
    levels: Seq<PriceLevel>,
    limit: Option<Decimal>,
    want: nat,
)
    ensures
        walk(side, levels, limit, want).filled <= want,
        walk(side, levels, limit, want).notional <= walk(side, levels, limit, want).filled
            * u64::MAX,
    decreases levels.len(),
{
    if levels.len() == 0 || want == 0 {
    } else if past_limit(side, levels[0].price, limit) {
    } else {
        let take = taken(levels[0], want);
        lemma_walk_bounds(side, levels.skip(1), limit, (want - take) as nat);
        let rest = walk(side, levels.skip(1), limit, (want - take) as nat);
        let p = levels[0].price.units;
        assert(take * p + rest.notional <= (take + rest.filled) * u64::MAX) by (nonlinear_arith)
            requires
                p <= u64::MAX,
                rest.notional <= rest.filled * u64::MAX,
        ;
    }
}

/// The sizes of a ladder add up from the front as they do from the back.
pub proof fn lemma_total_size_front(s: Seq<PriceLevel>)
    requires
        s.len() > 0,
    ensures
        total_size(s) == s[0].size.units + total_size(s.skip(1)),
    decreases s.len(),
{
    if s.len() == 1 {
        assert(s.drop_last() =~= Seq::<PriceLevel>::empty());
        assert(s.skip(1) =~= Seq::<PriceLevel>::empty());
        reveal_with_fuel(total_size, 2);
    } else {
        lemma_total_size_front(s.drop_last());
        assert(s.drop_last().skip(1) =~= s.skip(1).drop_last());
        assert(s.drop_last()[0] == s[0]);
        assert(s.skip(1).last() == s.last());
    }
}

/// An order without a limit gets what it wants or all there is, whichever
/// is less: it ends for want of liquidity where, and only where, it wants
/// more than the ladder holds.
pub proof fn lemma_market_fill(side: Side, levels: Seq<PriceLevel>, size: Decimal)
    ensures
        walk(side, levels, None, size.units as nat).filled == (if size.units <= total_size(
            levels,
        ) {
            size.units as nat
        } else {
            total_size(levels)
        }),
        fill_of(side, levels, None, size).status == (if size.units <= total_size(levels) {
            FillStatus::Filled
        } else {
            FillStatus::InsufficientLiquidity
        }),
{
    lemma_market_walk(side, levels, size.units as nat);
}

proof fn lemma_market_walk(side: Side, levels: Seq<PriceLevel>, want: nat)
    ensures
        walk(side, levels, None, want).filled == (if want <= total_size(levels) {
            want
        } else {
            total_size(levels)
        }),
        !walk(side, levels, None, want).blocked,
    decreases levels.len(),
{
    if levels.len() > 0 {
        lemma_total_size_front(levels);
        if want > 0 {
            let take = taken(levels[0], want);
            lemma_market_walk(side, levels.skip(1), (want - take) as nat);
        }
    }
}

/// Where no level is priced below `floor`, a walk pays no less than `floor`
/// for each unit; where none is priced above `ceiling`, no more than that.
pub proof fn lemma_walk_price_bounds(
    side: Side,
    levels: Seq<PriceLevel>,
    limit: Option<Decimal>,
    want: nat,
    floor: nat,
    ceiling: nat,
)
    requires
        forall|i: int| 0 <= i < levels.len() ==> floor <= (#[trigger] levels[i]).price.units <= ceiling,
    ensures
        walk(side, levels, limit, want).filled * floor <= walk(side, levels, limit, want).notional,
        walk(side, levels, limit, want).notional <= walk(side, levels, limit, want).filled * ceiling,
    decreases levels.len(),
{
    let w = walk(side, levels, limit, want);
    if levels.len() == 0 || want == 0 || past_limit(side, levels[0].price, limit) {
        assert(w.filled == 0 && w.notional == 0);
        assert(w.filled * floor == 0 && w.filled * ceiling == 0) by (nonlinear_arith)
            requires
                w.filled == 0,
        ;
    } else {
        let take = taken(levels[0], want);
        let tail = levels.skip(1);
        assert forall|i: int| 0 <= i < tail.len() implies floor <= (#[trigger] tail[i]).price.units
            <= ceiling by {
            assert(tail[i] == levels[i + 1]);
        }
        lemma_walk_price_bounds(side, tail, limit, (want - take) as nat, floor, ceiling);
        let rest = walk(side, tail, limit, (want - take) as nat);
        let p = levels[0].price.units as nat;
        assert((take + rest.filled) * floor <= take * p + rest.notional) by (nonlinear_arith)
            requires
                floor <= p,
                rest.filled * floor <= rest.notional,
        ;
        assert(take * p + rest.notional <= (take + rest.filled) * ceiling) by (nonlinear_arith)
            requires
                p <= ceiling,
                rest.notional <= rest.filled * ceiling,
        ;
        assert(w.filled == take + rest.filled);
        assert(w.notional == take * p + rest.notional);
    }
}

/// Against a ladder, walking outward can only make the price worse: the
/// average price of a buy is no lower than the best ask, that of a sell no
/// higher than the best bid. So the slippage of a buy is never negative and
/// that of a sell never positive.
pub proof fn lemma_slippage_sign(
    side: Side,
    levels: Seq<PriceLevel>,
    limit: Option<Decimal>,
    size: Decimal,
)
    requires
        is_ladder(side.opposite(), levels),
        fill_of(side, levels, limit, size).slippage is Some,
    ensures
        side == Side::BUY ==> fill_of(side, levels, limit, size).slippage->Some_0 >= 0,
        side == Side::SELL ==> fill_of(side, levels, limit, size).slippage->Some_0 <= 0,
{
    reveal(is_ladder);
    let want = size.units as nat;
    let w = walk(side, levels, limit, want);
    lemma_walk_bounds(side, levels, limit, want);
    assert(levels.len() > 0);
    let best = levels[0].price.units as nat;
    assert(w.notional / w.filled <= u64::MAX) by (nonlinear_arith)
        requires
            w.filled > 0,
            w.notional <= w.filled * u64::MAX,
    ;
    if side == Side::BUY {
        assert forall|i: int| 0 <= i < levels.len() implies best <= (#[trigger] levels[i]).price.units
            <= u64::MAX by {
            if i > 0 {
                assert(outranks(Side::SELL, levels[0].price, levels[i].price));
            }
        }
        lemma_walk_price_bounds(side, levels, limit, want, best, u64::MAX as nat);
        assert(w.notional / w.filled >= best) by (nonlinear_arith)
            requires
                w.filled > 0,
                w.filled * best <= w.notional,
        ;
    } else {
        assert forall|i: int| 0 <= i < levels.len() implies 0 <= (#[trigger] levels[i]).price.units
            <= best by {
            if i > 0 {
                assert(outranks(Side::BUY, levels[0].price, levels[i].price));
            }
        }
        lemma_walk_price_bounds(side, levels, limit, want, 0, best);
        assert(w.notional / w.filled <= best) by (nonlinear_arith)
            requires
                w.filled > 0,
                w.notional <= w.filled * best,
        ;
        assert(w.notional / w.filled >= 0) by (nonlinear_arith)
            requires
                w.filled > 0,
                w.notional >= 0,
        ;
    }
}

fn past_limit_exec(side: Side, price: Decimal, limit: Option<Decimal>) -> (r: bool)
    ensures
        r == past_limit(side, price, limit),
{
    match limit {
        None => false,
        Some(l) => match side {
            Side::BUY => price.units > l.units,
            Side::SELL => price.units < l.units,
        },
    }
}

/// Walks a ladder for an order: see [`fill_of`].
pub fn fill_against(
    side: Side,
    levels: &Vec<PriceLevel>,
    limit: Option<Decimal>,
    size: Decimal,
) -> (r: FillResult)
    ensures
        r == fill_of(side, levels@, limit, size),
        r.filled.units + r.remaining.units == size.units,
{
    let ghost all = levels@;
    let ghost total = walk(side, all, limit, size.units as nat);
    let n: usize = levels.len();
    let mut i: usize = 0;
    let mut remaining: u64 = size.units;
    let mut filled: u64 = 0;
    let mut notional: u128 = 0;
    let mut done: bool = false;
    let mut blocked: bool = false;
    proof {
        assert(all.skip(0) =~= all);
        lemma_walk_bounds(side, all, limit, size.units as nat);
    }
    while i < n && !done
        invariant
            i <= n,
            n == all.len(),
            all == levels@,
            filled + remaining == size.units,
            total == walk(side, all, limit, size.units as nat),
            total.filled <= size.units,
            total.notional <= total.filled * u64::MAX,
            total.filled == filled + walk(side, all.skip(i as int), limit, remaining as nat).filled,
            total.notional == notional + walk(
                side,
                all.skip(i as int),
                limit,
                remaining as nat,
            ).notional,
            total.blocked == walk(side, all.skip(i as int), limit, remaining as nat).blocked,
            done ==> walk(side, all.skip(i as int), limit, remaining as nat) == (Walk {
                filled: 0,
                notional: 0,
                blocked,
            }),
        decreases n - i + (if done { 0int } else { 1int }),
    {
        let level: PriceLevel = levels[i];
        proof {
            assert(all.skip(i as int)[0] == all[i as int]);
            assert(all.skip(i as int).skip(1) =~= all.skip(i + 1));
        }
        if remaining == 0 {
            done = true;
            blocked = false;
        } else if past_limit_exec(side, level.price, limit) {
            done = true;
            blocked = true;
        } else {
            let take: u64 = if level.size.units <= remaining {
                level.size.units
            } else {
                remaining
            };
            proof {
                let rest = walk(side, all.skip(i + 1), limit, (remaining - take) as nat);
                assert(total.notional == notional + take * level.price.units + rest.notional);
                assert(total.filled * u64::MAX <= u64::MAX * u64::MAX) by (nonlinear_arith)
                    requires
                        total.filled <= u64::MAX,
                ;
                assert(take * level.price.units >= 0) by (nonlinear_arith)
                    requires
                        take >= 0,
                        level.price.units >= 0,
                ;
                assert(take * level.price.units <= u64::MAX * u64::MAX) by (nonlinear_arith)
                    requires
                        take <= u64::MAX,
                        level.price.units <= u64::MAX,
                ;
            }
            notional = notional + (take as u128) * (level.price.units as u128);
            filled = filled + take;
            remaining = remaining - take;
            i += 1;
        }
    }
    proof {
        if !done {
            assert(all.skip(n as int).len() == 0);
        }
        assert(total.filled == filled);
        assert(total.notional == notional);
    }
    let status: FillStatus = if remaining == 0 {
        FillStatus::Filled
    } else if done && blocked {
        FillStatus::LimitReached
    } else {
        FillStatus::InsufficientLiquidity
    };
    if filled > 0 {
        proof {
            assert(notional as nat / filled as nat <= u64::MAX) by (nonlinear_arith)
                requires
                    filled > 0,
                    notional <= filled * u64::MAX,
            ;
            assert(all.len() > 0);
        }
        let average: u64 = (notional / (filled as u128)) as u64;
        let best: u64 = levels[0].price.units;
        FillResult {
            filled: Decimal { units: filled },
            remaining: Decimal { units: remaining },
            notional,
            average_price: Some(Decimal { units: average }),
            slippage: Some(average as i128 - best as i128),
            status,
        }
    } else {
        FillResult {
            filled: Decimal { units: filled },
            remaining: Decimal { units: remaining },
            notional,
            average_price: None,
            slippage: None,
            status,
        }
    }
}

/// Simulates orders against snapshots of a book, to tell before an order is
/// sent what it would get. It reads only: no book and no order changes.
#[derive(Clone, Copy, Debug)]
pub struct FillEngine {}

impl FillEngine {
    pub fn new() -> (r: FillEngine) {
        FillEngine {  }
    }

    /// What an order of `side` and `size` in `token_id` would get from the
    /// book as the snapshot shows it: the opposing ladder is walked from the
    /// best price outward, up to `limit_price` where there is one.
    pub fn simulate(
        &self,
        token_id: &str,
        side: Side,
        limit_price: Option<Decimal>,
        size: Decimal,
        snapshot: &OrderBookSummary,
    ) -> (r: FillResult)
        ensures
            r == fill_of(side, opposing(snapshot, token_id@, side), limit_price, size),
            r.filled.units + r.remaining.units == size.units,
    {
        if !same_text(snapshot.token_id.as_str(), token_id) {
            let none: Vec<PriceLevel> = Vec::new();
            fill_against(side, &none, limit_price, size)
        } else {
            match side {
                Side::BUY => fill_against(side, &snapshot.asks, limit_price, size),
                Side::SELL => fill_against(side, &snapshot.bids, limit_price, size),
            }
        }
    }
}

} // verus!
