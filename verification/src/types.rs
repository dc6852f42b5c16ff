use crate::decimal::Decimal;
use vstd::prelude::*;

verus! {

/// Side of the book an order or a level belongs to.
#[derive(Clone, Copy, Debug, PartialEq, Eq, Hash, Structural)]
pub enum Side {
    BUY,
    SELL,
}

impl Side {
    /// The side an order of this side trades against.
    pub open spec fn spec_opposite(self) -> Side {
        match self {
            Side::BUY => Side::SELL,
            Side::SELL => Side::BUY,
        }
    }

    #[verifier::when_used_as_spec(spec_opposite)]
    pub fn opposite(self) -> (r: Side)
        ensures
            r == self.spec_opposite(),
    {
        match self {
            Side::BUY => Side::SELL,
            Side::SELL => Side::BUY,
        }
    }
}

/// A price and the aggregate size resting at it.
#[derive(Clone, Copy, Debug, PartialEq, Eq, Structural)]
pub struct PriceLevel {
    pub price: Decimal,
    pub size: Decimal,
}

/// What a delta says once the instrument is known: set the level at `price`
/// on `side` to `size` (an absolute size, not an increment; nought removes
/// the level), as update number `sequence`.
#[derive(Clone, Copy, Debug, PartialEq, Eq, Structural)]
pub struct LevelUpdate {
    pub side: Side,
    pub price: Decimal,
    pub size: Decimal,
    pub sequence: u64,
    pub timestamp: u64,
}

/// A differential update to one price level of one instrument.
#[derive(Clone, Debug)]
pub struct OrderDelta {
    pub token_id: String,
    pub timestamp: u64,
    pub side: Side,
    pub price: Decimal,
    pub size: Decimal,
    pub sequence: u64,
}

impl OrderDelta {
    /// The update that the delta carries for its instrument.
    pub open spec fn spec_update(&self) -> LevelUpdate {
        LevelUpdate {
            side: self.side,
            price: self.price,
            size: self.size,
            sequence: self.sequence,
            timestamp: self.timestamp,
        }
    }

    #[verifier::when_used_as_spec(spec_update)]
    pub fn update(&self) -> (r: LevelUpdate)
        ensures
            r == self.spec_update(),
    {
        LevelUpdate {
            side: self.side,
            price: self.price,
            size: self.size,
            sequence: self.sequence,
            timestamp: self.timestamp,
        }
    }
}

/// A full picture of one instrument's book as of `sequence`, as the feed or
/// the snapshot endpoint delivers it. The levels come in no promised order.
#[derive(Clone, Debug)]
pub struct BookSnapshot {
    pub token_id: String,
    pub bids: Vec<PriceLevel>,
    pub asks: Vec<PriceLevel>,
    pub sequence: u64,
    pub timestamp: u64,
}

/// An execution reported by the feed.
#[derive(Clone, Debug)]
pub struct Trade {
    pub token_id: String,
    pub side: Side,
    pub price: Decimal,
    pub size: Decimal,
    pub timestamp: u64,
}

/// A change of the instrument's minimum price increment.
#[derive(Clone, Debug)]
pub struct TickSizeChange {
    pub token_id: String,
    pub old_tick_size: Decimal,
    pub new_tick_size: Decimal,
    pub timestamp: u64,
}

/// What a frame of the feed decodes to.
#[derive(Clone, Debug)]
pub enum StreamMessage {
    OrderDelta(OrderDelta),
    Trade(Trade),
    TickSizeChange(TickSizeChange),
    BookSnapshot(BookSnapshot),
    Heartbeat,
    /// The feed reported a fault of its own, with this text.
    Error(String),
    /// A kind of message this version does not know: skipped, not a fault.
    Unknown,
}

} // verus!
