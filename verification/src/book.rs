use crate::errors::PolyfillError;
use crate::ladder::{
    build_ladder, copy_levels, is_ladder, ladder_of, ladder_put, ladder_set,
    lemma_ladder_of_is_ladder, lemma_ladder_of_ladder, lemma_put_is_ladder,
    lemma_trimmed_is_ladder, set_level, total_size, trimmed,
};
use crate::seqs::{lemma_filter_head, lemma_filter_tail};
use crate::types::{BookSnapshot, LevelUpdate, OrderDelta, PriceLevel, Side};
use vstd::prelude::*;

verus! {

/// Where a book stands between its baseline and the live feed.
#[derive(Clone, Copy, Debug, PartialEq, Eq, Structural)]
pub enum SyncState {
    /// No baseline was ever asked for.
    Uninitialized,
    /// A baseline was asked for and has not arrived.
    Syncing,
    /// The ladders follow the feed update by update.
    Live,
    /// Updates were missed: the ladders are stale until a baseline arrives.
    OutOfSync,
    /// The instrument was given up. Nothing changes the book any more.
    Closed,
}

/// What became of a delta handed to a book.
#[derive(Clone, Copy, Debug, PartialEq, Eq, Structural)]
pub enum DeltaOutcome {
    /// The level was set and the sequence advanced.
    Applied,
    /// The sequence number is not beyond the book's: dropped.
    Stale,
    /// The sequence number skips at least one update: the book is now out of
    /// sync and needs a baseline.
    GapDetected,
    /// The book is not live: the delta is kept for the replay that follows
    /// the next baseline.
    Buffered,
    /// The book is not live and takes no more deltas in.
    Dropped,
    /// The delta is for another instrument, or the book is closed.
    Rejected,
}

impl DeltaOutcome {
    /// The fault that the outcome reports, if any: a delta that is stale or
    /// leaves a hole is a sequence gap; one that meets a book without a
    /// baseline finds it out of sync. A delta that was applied, or that was
    /// not for the book to take, reports none.
    pub open spec fn spec_fault(self) -> Option<PolyfillError> {
        match self {
            DeltaOutcome::Stale => Some(PolyfillError::SequenceGap),
            DeltaOutcome::GapDetected => Some(PolyfillError::SequenceGap),
            DeltaOutcome::Buffered => Some(PolyfillError::OutOfSync),
            DeltaOutcome::Dropped => Some(PolyfillError::OutOfSync),
            _ => None,
        }
    }

    #[verifier::when_used_as_spec(spec_fault)]
    pub fn fault(self) -> (r: Option<PolyfillError>)
        ensures
            r == self.spec_fault(),
    {
        match self {
            DeltaOutcome::Stale => Some(PolyfillError::SequenceGap),
            DeltaOutcome::GapDetected => Some(PolyfillError::SequenceGap),
            DeltaOutcome::Buffered => Some(PolyfillError::OutOfSync),
            DeltaOutcome::Dropped => Some(PolyfillError::OutOfSync),
            _ => None,
        }
    }
}

/// What became of a baseline handed to a book.
#[derive(Clone, Copy, Debug, PartialEq, Eq, Structural)]
pub enum SnapshotOutcome {
    /// The ladders were replaced and the kept deltas replayed.
    Installed,
    /// The baseline is older than what the book has applied: ignored.
    Stale,
    /// The baseline is for another instrument, or the book is closed.
    Rejected,
}

/// The mathematical content of a book.
pub struct BookModel {
    /// Most levels tracked per side.
    pub depth: nat,
    /// Most deltas kept while the book is not live.
    pub pending_limit: nat,
    /// Bids, highest price first.
    pub bids: Seq<PriceLevel>,
    /// Asks, lowest price first.
    pub asks: Seq<PriceLevel>,
    /// Sequence number of the last update that the ladders reflect.
    pub last_sequence: u64,
    /// Timestamp of that update.
    pub last_update: u64,
    pub state: SyncState,
    /// Deltas kept for replay, by sequence number.
    pub pending: Seq<LevelUpdate>,
}

/// Kept deltas stand by sequence number, earliest first.
#[verifier::opaque]
pub open spec fn is_queue(p: Seq<LevelUpdate>) -> bool {
    forall|i: int, j: int|
        0 <= i < j < p.len() ==> (#[trigger] p[i]).sequence <= (#[trigger] p[j]).sequence
}

/// The queue with `u` added: behind every delta whose sequence number is not
/// larger, before the others.
pub open spec fn queued(p: Seq<LevelUpdate>, u: LevelUpdate) -> Seq<LevelUpdate> {
    p.filter(|x: LevelUpdate| x.sequence <= u.sequence).push(u) + p.filter(
        |x: LevelUpdate| x.sequence > u.sequence,
    )
}

/// The queue after `u` was offered to it: added where there is room.
pub open spec fn held(p: Seq<LevelUpdate>, u: LevelUpdate, limit: nat) -> Seq<LevelUpdate> {
    if p.len() < limit {
        queued(p, u)
    } else {
        p
    }
}

impl BookModel {
    /// The invariant of a book: both sides are ladders within the depth
    /// bound, and the kept deltas are in sequence order and within their
    /// limit.
    pub open spec fn wf(self) -> bool {
        &&& is_ladder(Side::BUY, self.bids)
        &&& is_ladder(Side::SELL, self.asks)
        &&& self.bids.len() <= self.depth
        &&& self.asks.len() <= self.depth
        &&& is_queue(self.pending)
        &&& self.pending.len() <= self.pending_limit
    }

    /// A book that has seen nothing yet.
    pub open spec fn fresh(depth: nat, pending_limit: nat) -> BookModel {
        BookModel {
            depth,
            pending_limit,
            bids: Seq::empty(),
            asks: Seq::empty(),
            last_sequence: 0,
            last_update: 0,
            state: SyncState::Uninitialized,
            pending: Seq::empty(),
        }
    }

    /// The book once a baseline was asked for: a book that has none, or
    /// lost it, now waits for one.
    pub open spec fn requested(self) -> BookModel {
        if self.state is Uninitialized || self.state is OutOfSync {
            BookModel { state: SyncState::Syncing, ..self }
        } else {
            self
        }
    }

    /// The book once the fetch of a baseline failed: a book that waited for
    /// it is out of sync, so that the fetch is tried again.
    pub open spec fn fetch_failed(self) -> BookModel {
        if self.state is Syncing {
            BookModel { state: SyncState::OutOfSync, ..self }
        } else {
            self
        }
    }

    /// The book once its feed was interrupted: out of sync, unless closed.
    pub open spec fn desynced(self) -> BookModel {
        if self.state is Closed {
            self
        } else {
            BookModel { state: SyncState::OutOfSync, ..self }
        }
    }

    /// The book once its instrument was given up: closed and empty.
    pub open spec fn shut(self) -> BookModel {
        BookModel {
            state: SyncState::Closed,
            bids: Seq::empty(),
            asks: Seq::empty(),
            pending: Seq::empty(),
            ..self
        }
    }

    /// The ladder that updates of `side` change.
    pub open spec fn ladder(self, side: Side) -> Seq<PriceLevel> {
        match side {
            Side::BUY => self.bids,
            Side::SELL => self.asks,
        }
    }
}

/// What a book answers to an update.
pub open spec fn outcome_of(b: BookModel, u: LevelUpdate) -> DeltaOutcome {
    match b.state {
        SyncState::Closed => DeltaOutcome::Rejected,
        SyncState::Live => if u.sequence <= b.last_sequence {
            DeltaOutcome::Stale
        } else if u.sequence > b.last_sequence + 1 {
            DeltaOutcome::GapDetected
        } else {
            DeltaOutcome::Applied
        },
        _ => if b.pending.len() < b.pending_limit {
            DeltaOutcome::Buffered
        } else {
            DeltaOutcome::Dropped
        },
    }
}

/// The book after one update was handed to it. Only a live book that gets
/// the very next sequence number changes its ladders; a live book that sees
/// a hole falls out of sync; a book that is not live keeps the update for
/// later, as far as there is room.
pub open spec fn step(b: BookModel, u: LevelUpdate) -> BookModel {
    match outcome_of(b, u) {
        DeltaOutcome::Applied => BookModel {
            bids: if u.side == Side::BUY {
                ladder_set(Side::BUY, b.bids, u.price, u.size, b.depth)
            } else {
                b.bids
            },
            asks: if u.side == Side::SELL {
                ladder_set(Side::SELL, b.asks, u.price, u.size, b.depth)
            } else {
                b.asks
            },
            last_sequence: u.sequence,
            last_update: u.timestamp,
            ..b
        },
        DeltaOutcome::GapDetected => BookModel {
            state: SyncState::OutOfSync,
            pending: held(b.pending, u, b.pending_limit),
            ..b
        },
        DeltaOutcome::Buffered => BookModel { pending: held(b.pending, u, b.pending_limit), ..b },
        _ => b,
    }
}

/// The book after a run of updates, each handed to it in turn.
pub open spec fn run(b: BookModel, updates: Seq<LevelUpdate>) -> BookModel
    decreases updates.len(),
{
    if updates.len() == 0 {
        b
    } else {
        step(run(b, updates.drop_last()), updates.last())
    }
}

/// The answers that a run of updates gets, one for each.
pub open spec fn outcomes(b: BookModel, updates: Seq<LevelUpdate>) -> Seq<DeltaOutcome> {
    Seq::new(updates.len(), |i: int| outcome_of(run(b, updates.take(i)), updates[i]))
}

/// The kept deltas that are newer than a baseline of the given sequence.
pub open spec fn fresher(pending: Seq<LevelUpdate>, sequence: u64) -> Seq<LevelUpdate> {
    pending.filter(|u: LevelUpdate| u.sequence > sequence)
}

/// What a book answers to a baseline of the given sequence.
pub open spec fn snapshot_outcome(b: BookModel, sequence: u64) -> SnapshotOutcome {
    if b.state is Closed {
        SnapshotOutcome::Rejected
    } else if sequence < b.last_sequence {
        SnapshotOutcome::Stale
    } else {
        SnapshotOutcome::Installed
    }
}

/// The book with its ladders, sequence and time replaced by a baseline's,
/// live, and with nothing kept.
pub open spec fn rebased(
    b: BookModel,
    bids: Seq<PriceLevel>,
    asks: Seq<PriceLevel>,
    sequence: u64,
    timestamp: u64,
) -> BookModel {
    BookModel {
        bids: trimmed(ladder_of(Side::BUY, bids), b.depth),
        asks: trimmed(ladder_of(Side::SELL, asks), b.depth),
        last_sequence: sequence,
        last_update: timestamp,
        state: SyncState::Live,
        pending: Seq::empty(),
        ..b
    }
}

/// The book after a baseline was handed to it. An accepted baseline replaces
/// the ladders wholesale; the kept deltas that are newer are then replayed in
/// sequence order, the others are discarded. A baseline older than the book
/// changes no ladder, and a book that waited for it is out of sync again.
pub open spec fn install(
    b: BookModel,
    bids: Seq<PriceLevel>,
    asks: Seq<PriceLevel>,
    sequence: u64,
    timestamp: u64,
) -> BookModel {
    match snapshot_outcome(b, sequence) {
        SnapshotOutcome::Rejected => b,
        SnapshotOutcome::Stale => BookModel {
            state: if b.state is Syncing {
                SyncState::OutOfSync
            } else {
                b.state
            },
            ..b
        },
        SnapshotOutcome::Installed => run(
            rebased(b, bids, asks, sequence, timestamp),
            fresher(b.pending, sequence),
        ),
    }
}

/// Adding a delta to a queue comes to inserting it at the place `k` behind
/// the deltas that are not newer.
proof fn lemma_queued_at(p: Seq<LevelUpdate>, u: LevelUpdate, k: int)
    requires
        is_queue(p),
        0 <= k <= p.len(),
        k > 0 ==> p[k - 1].sequence <= u.sequence,
        k < p.len() ==> p[k].sequence > u.sequence,
    ensures
        queued(p, u) == p.insert(k, u),
        is_queue(p.insert(k, u)),
{
    reveal(is_queue);
    let older = |x: LevelUpdate| x.sequence <= u.sequence;
    let newer = |x: LevelUpdate| x.sequence > u.sequence;
    assert forall|i: int| 0 <= i < k implies older(#[trigger] p[i]) by {
        if i < k - 1 {
            assert(p[i].sequence <= p[k - 1].sequence);
        }
    }
    assert forall|i: int| k <= i < p.len() implies !older(#[trigger] p[i]) by {
        if i > k {
            assert(p[k].sequence <= p[i].sequence);
        }
    }
    lemma_filter_head(p, older, k);
    assert forall|i: int| 0 <= i < k implies !newer(#[trigger] p[i]) by {
        assert(older(p[i]));
    }
    assert forall|i: int| k <= i < p.len() implies newer(#[trigger] p[i]) by {
        assert(!older(p[i]));
    }
    lemma_filter_tail(p, newer, k);
    assert(p.take(k).push(u) + p.skip(k) =~= p.insert(k, u));
    let q = p.insert(k, u);
    assert forall|i: int, j: int| 0 <= i < j < q.len() implies (#[trigger] q[i]).sequence <= (
    #[trigger] q[j]).sequence by {
        if i < k && j > k {
            assert(older(p[i]));
            assert(newer(p[j - 1]));
        } else if i == k {
            assert(newer(p[j - 1]));
        } else if j == k {
            assert(older(p[i]));
        } else if j < k {
            assert(p[i].sequence <= p[j].sequence);
        } else {
            assert(p[i - 1].sequence <= p[j - 1].sequence);
        }
    }
}

/// The place in a queue behind the deltas that are not newer than `u`.
pub open spec fn queue_place(p: Seq<LevelUpdate>, u: LevelUpdate) -> int
    decreases p.len(),
{
    if p.len() == 0 {
        0
    } else if p.last().sequence <= u.sequence {
        p.len() as int
    } else {
        queue_place(p.drop_last(), u)
    }
}

proof fn lemma_queue_place(p: Seq<LevelUpdate>, u: LevelUpdate)
    requires
        is_queue(p),
    ensures
        0 <= queue_place(p, u) <= p.len(),
        queue_place(p, u) > 0 ==> p[queue_place(p, u) - 1].sequence <= u.sequence,
        queue_place(p, u) < p.len() ==> p[queue_place(p, u)].sequence > u.sequence,
    decreases p.len(),
{
    if p.len() > 0 && p.last().sequence > u.sequence {
        let front = p.drop_last();
        assert(is_queue(front)) by {
            reveal(is_queue);
            assert forall|i: int, j: int| 0 <= i < j < front.len() implies (
            #[trigger] front[i]).sequence <= (#[trigger] front[j]).sequence by {
                assert(front[i] == p[i] && front[j] == p[j]);
            }
        }
        lemma_queue_place(front, u);
        let k = queue_place(front, u);
        if k > 0 {
            assert(front[k - 1] == p[k - 1]);
        }
        if k < front.len() {
            assert(front[k] == p[k]);
        }
    }
}

/// A queue that is offered a delta stays a queue, within its limit.
pub proof fn lemma_held_is_queue(p: Seq<LevelUpdate>, u: LevelUpdate, limit: nat)
    requires
        is_queue(p),
        p.len() <= limit,
    ensures
        is_queue(held(p, u, limit)),
        held(p, u, limit).len() <= limit,
{
    if p.len() < limit {
        lemma_queue_place(p, u);
        lemma_queued_at(p, u, queue_place(p, u));
    }
}

/// No update breaks a book: its sides stay ladders within the depth bound,
/// so no price occurs twice and no level is empty, and the kept deltas stay
/// in order and within their limit.
pub proof fn lemma_step_wf(b: BookModel, u: LevelUpdate)
    requires
        b.wf(),
    ensures
        step(b, u).wf(),
{
    lemma_held_is_queue(b.pending, u, b.pending_limit);
    lemma_put_is_ladder(Side::BUY, b.bids, u.price, u.size);
    lemma_put_is_ladder(Side::SELL, b.asks, u.price, u.size);
    lemma_trimmed_is_ladder(Side::BUY, ladder_put(Side::BUY, b.bids, u.price, u.size), b.depth);
    lemma_trimmed_is_ladder(Side::SELL, ladder_put(Side::SELL, b.asks, u.price, u.size), b.depth);
}

/// No run of updates breaks a book.
pub proof fn lemma_run_wf(b: BookModel, updates: Seq<LevelUpdate>)
    requires
        b.wf(),
    ensures
        run(b, updates).wf(),
    decreases updates.len(),
{
    if updates.len() > 0 {
        lemma_run_wf(b, updates.drop_last());
        lemma_step_wf(run(b, updates.drop_last()), updates.last());
    }
}

/// No baseline breaks a book, whatever levels it lists and in whatever
/// order.
pub proof fn lemma_install_wf(
    b: BookModel,
    bids: Seq<PriceLevel>,
    asks: Seq<PriceLevel>,
    sequence: u64,
    timestamp: u64,
)
    requires
        b.wf(),
    ensures
        install(b, bids, asks, sequence, timestamp).wf(),
{
    lemma_ladder_of_is_ladder(Side::BUY, bids);
    lemma_ladder_of_is_ladder(Side::SELL, asks);
    lemma_trimmed_is_ladder(Side::BUY, ladder_of(Side::BUY, bids), b.depth);
    lemma_trimmed_is_ladder(Side::SELL, ladder_of(Side::SELL, asks), b.depth);
    let base = rebased(b, bids, asks, sequence, timestamp);
    assert(base.wf()) by {
        reveal(is_queue);
    }
    lemma_run_wf(base, fresher(b.pending, sequence));
}

/// Offers a delta to the queue of kept deltas.
fn hold(pending: &mut Vec<LevelUpdate>, u: LevelUpdate, limit: usize)
    requires
        is_queue(old(pending)@),
    ensures
        final(pending)@ == held(old(pending)@, u, limit as nat),
        is_queue(final(pending)@),
        old(pending)@.len() <= limit ==> final(pending)@.len() <= limit,
{
    if pending.len() >= limit {
        return ;
    }
    let ghost p = pending@;
    let mut k: usize = pending.len();
    while k > 0 && pending[k - 1].sequence > u.sequence
        invariant
            k <= p.len(),
            pending@ == p,
            k < p.len() ==> p[k as int].sequence > u.sequence,
        decreases k,
    {
        k -= 1;
    }
    proof {
        lemma_queued_at(p, u, k as int);
    }
    pending.insert(k, u);
}

/// Most deltas a book keeps while it is not live, unless told otherwise.
pub const DEFAULT_PENDING_LIMIT: usize = 1024;

/// The limit-order book of one instrument, rebuilt from a baseline and the
/// sequenced deltas that follow it.
#[derive(Debug)]
pub struct OrderBook {
    token_id: String,
    max_depth: usize,
    max_pending: usize,
    bids: Vec<PriceLevel>,
    asks: Vec<PriceLevel>,
    sequence: u64,
    timestamp: u64,
    state: SyncState,
    pending: Vec<LevelUpdate>,
}

/// A point-in-time copy of a book for readers: no later update shows in it.
#[derive(Debug)]
pub struct OrderBookSummary {
    pub token_id: String,
    /// Bids, highest price first.
    pub bids: Vec<PriceLevel>,
    /// Asks, lowest price first.
    pub asks: Vec<PriceLevel>,
    /// Sum of the sizes of all bids.
    pub bid_size: u128,
    /// Sum of the sizes of all asks.
    pub ask_size: u128,
    pub sequence: u64,
    pub last_update: u64,
    pub state: SyncState,
}

impl OrderBookSummary {
    /// Tells a reader whether the copy can be relied on: it can where the
    /// book was live when the copy was made; otherwise the copy is stale,
    /// and says so.
    pub fn ensure_synced(&self) -> (r: Result<(), PolyfillError>)
        ensures
            r is Ok <==> self.state is Live,
            r is Err ==> r->Err_0 == PolyfillError::OutOfSync,
    {
        match self.state {
            SyncState::Live => Ok(()),
            _ => Err(PolyfillError::OutOfSync),
        }
    }
}

impl View for OrderBook {
    type V = BookModel;

    closed spec fn view(&self) -> BookModel {
        BookModel {
            depth: self.max_depth as nat,
            pending_limit: self.max_pending as nat,
            bids: self.bids@,
            asks: self.asks@,
            last_sequence: self.sequence,
            last_update: self.timestamp,
            state: self.state,
            pending: self.pending@,
        }
    }
}

impl OrderBook {
    /// The book's invariant: both sides are ladders within the depth bound,
    /// and the kept deltas are in sequence order and within their limit.
    pub open spec fn wf(&self) -> bool {
        self@.wf()
    }

    /// The instrument that the book is of.
    pub closed spec fn token(&self) -> Seq<char> {
        self.token_id@
    }

    /// The instrument that the book is of.
    pub fn token_id(&self) -> (r: &String)
        ensures
            r@ == self.token(),
    {
        &self.token_id
    }

    /// An empty book for `token_id` that tracks `max_depth` levels per side.
    pub fn new(token_id: String, max_depth: usize) -> (r: OrderBook)
        requires
            max_depth > 0,
        ensures
            r.wf(),
            r.token() == token_id@,
            r@ == BookModel::fresh(max_depth as nat, DEFAULT_PENDING_LIMIT as nat),
    {
        OrderBook::with_pending_limit(token_id, max_depth, DEFAULT_PENDING_LIMIT)
    }

    /// An empty book, or the configuration fault: a depth of nought tracks
    /// nothing.
    pub fn try_new(token_id: String, max_depth: usize) -> (r: Result<OrderBook, PolyfillError>)
        ensures
            max_depth == 0 <==> r is Err,
            r is Err ==> r == Err::<OrderBook, PolyfillError>(PolyfillError::Configuration),
            r is Ok ==> r->Ok_0.wf() && r->Ok_0.token() == token_id@ && r->Ok_0@
                == BookModel::fresh(max_depth as nat, DEFAULT_PENDING_LIMIT as nat),
    {
        if max_depth == 0 {
            Err(PolyfillError::Configuration)
        } else {
            Ok(OrderBook::new(token_id, max_depth))
        }
    }

    /// An empty book that keeps at most `max_pending` deltas while it is not
    /// live; with nought it drops them all.
    pub fn with_pending_limit(token_id: String, max_depth: usize, max_pending: usize) -> (r:
        OrderBook)
        requires
            max_depth > 0,
        ensures
            r.wf(),
            r.token() == token_id@,
            r@ == BookModel::fresh(max_depth as nat, max_pending as nat),
    {
        proof {
            reveal(is_ladder);
            reveal(is_queue);
        }
        OrderBook {
            token_id,
            max_depth,
            max_pending,
            bids: Vec::new(),
            asks: Vec::new(),
            sequence: 0,
            timestamp: 0,
            state: SyncState::Uninitialized,
            pending: Vec::new(),
        }
    }

    /// Hands one update to the book.
    pub fn apply_update(&mut self, u: LevelUpdate) -> (r: DeltaOutcome)
        requires
            old(self).wf(),
        ensures
            final(self).wf(),
            final(self).token() == old(self).token(),
            final(self)@ == step(old(self)@, u),
            r == outcome_of(old(self)@, u),
    {
        match self.state {
            SyncState::Closed => DeltaOutcome::Rejected,
            SyncState::Live => {
                if u.sequence <= self.sequence {
                    DeltaOutcome::Stale
                } else if u.sequence - self.sequence > 1 {
                    self.state = SyncState::OutOfSync;
                    hold(&mut self.pending, u, self.max_pending);
                    DeltaOutcome::GapDetected
                } else {
                    match u.side {
                        Side::BUY => set_level(
                            Side::BUY,
                            &mut self.bids,
                            u.price,
                            u.size,
                            self.max_depth,
                        ),
                        Side::SELL => set_level(
                            Side::SELL,
                            &mut self.asks,
                            u.price,
                            u.size,
                            self.max_depth,
                        ),
                    }
                    self.sequence = u.sequence;
                    self.timestamp = u.timestamp;
                    DeltaOutcome::Applied
                }
            },
            _ => {
                let room: bool = self.pending.len() < self.max_pending;
                hold(&mut self.pending, u, self.max_pending);
                if room {
                    DeltaOutcome::Buffered
                } else {
                    DeltaOutcome::Dropped
                }
            },
        }
    }

    /// Hands a delta to the book. One for another instrument is rejected and
    /// changes nothing; any other is treated as its update says.
    pub fn apply_delta(&mut self, delta: &OrderDelta) -> (r: DeltaOutcome)
        requires
            old(self).wf(),
        ensures
            final(self).wf(),
            final(self).token() == old(self).token(),
            delta.token_id@ == old(self).token() ==> final(self)@ == step(
                old(self)@,
                delta.update(),
            ) && r == outcome_of(old(self)@, delta.update()),
            delta.token_id@ != old(self).token() ==> final(self)@ == old(self)@ && r
                == DeltaOutcome::Rejected,
    {
        if delta.token_id != self.token_id {
            return DeltaOutcome::Rejected;
        }
        self.apply_update(delta.update())
    }

    /// Hands a batch of updates to the book, one after the other, and says
    /// what became of each.
    pub fn apply_updates(&mut self, updates: &Vec<LevelUpdate>) -> (r: Vec<DeltaOutcome>)
        requires
            old(self).wf(),
        ensures
            final(self).wf(),
            final(self).token() == old(self).token(),
            final(self)@ == run(old(self)@, updates@),
            r@ == outcomes(old(self)@, updates@),
    {
        let ghost start = self@;
        let mut answers: Vec<DeltaOutcome> = Vec::new();
        let n: usize = updates.len();
        let mut i: usize = 0;
        proof {
            assert(updates@.take(0) =~= Seq::<LevelUpdate>::empty());
        }
        while i < n
            invariant
                i <= n,
                n == updates@.len(),
                self.wf(),
                self.token() == old(self).token(),
                self@ == run(start, updates@.take(i as int)),
                answers@.len() == i,
                forall|j: int|
                    0 <= j < i ==> #[trigger] answers@[j] == outcome_of(
                        run(start, updates@.take(j)),
                        updates@[j],
                    ),
            decreases n - i,
        {
            proof {
                assert(updates@.take(i + 1).drop_last() =~= updates@.take(i as int));
            }
            let answer: DeltaOutcome = self.apply_update(updates[i]);
            answers.push(answer);
            i += 1;
        }
        proof {
            assert(updates@.take(n as int) =~= updates@);
            assert(answers@ =~= outcomes(start, updates@));
        }
        answers
    }

    /// Hands a baseline to the book. One for another instrument is rejected
    /// and changes nothing; any other is treated as [`install`] says.
    pub fn apply_snapshot(&mut self, snapshot: &BookSnapshot) -> (r: SnapshotOutcome)
        requires
            old(self).wf(),
        ensures
            final(self).wf(),
            final(self).token() == old(self).token(),
            snapshot.token_id@ == old(self).token() ==> final(self)@ == install(
                old(self)@,
                snapshot.bids@,
                snapshot.asks@,
                snapshot.sequence,
                snapshot.timestamp,
            ) && r == snapshot_outcome(old(self)@, snapshot.sequence),
            snapshot.token_id@ != old(self).token() ==> final(self)@ == old(self)@ && r
                == SnapshotOutcome::Rejected,
    {
        if snapshot.token_id != self.token_id {
            return SnapshotOutcome::Rejected;
        }
        match self.state {
            SyncState::Closed => {
                return SnapshotOutcome::Rejected;
            },
            _ => {},
        }
        if snapshot.sequence < self.sequence {
            match self.state {
                SyncState::Syncing => {
                    self.state = SyncState::OutOfSync;
                },
                _ => {},
            }
            return SnapshotOutcome::Stale;
        }
        let ghost before = self@;
        let sequence: u64 = snapshot.sequence;
        let mut kept: Vec<LevelUpdate> = Vec::new();
        core::mem::swap(&mut kept, &mut self.pending);
        self.bids = build_ladder(Side::BUY, &snapshot.bids, self.max_depth);
        self.asks = build_ladder(Side::SELL, &snapshot.asks, self.max_depth);
        self.sequence = sequence;
        self.timestamp = snapshot.timestamp;
        self.state = SyncState::Live;
        let ghost base = self@;
        proof {
            reveal(is_queue);
            assert(base == rebased(
                before,
                snapshot.bids@,
                snapshot.asks@,
                sequence,
                snapshot.timestamp,
            ));
            reveal(Seq::filter);
            assert(kept@.take(0) =~= Seq::<LevelUpdate>::empty());
        }
        let n: usize = kept.len();
        let mut i: usize = 0;
        while i < n
            invariant
                i <= n,
                n == kept@.len(),
                self.wf(),
                self.token() == old(self).token(),
                self@ == run(base, fresher(kept@.take(i as int), sequence)),
            decreases n - i,
        {
            proof {
                reveal(Seq::filter);
                assert(kept@.take(i + 1).drop_last() =~= kept@.take(i as int));
                let sofar = fresher(kept@.take(i as int), sequence);
                assert(sofar.push(kept@[i as int]).drop_last() =~= sofar);
            }
            if kept[i].sequence > sequence {
                self.apply_update(kept[i]);
            }
            i += 1;
        }
        proof {
            assert(kept@.take(n as int) =~= kept@);
        }
        SnapshotOutcome::Installed
    }

    /// Notes that a baseline is being fetched. Says whether the caller has
    /// to fetch one: yes for a book that has none or lost it, no for a book
    /// that is live, already waits for one, or is closed.
    pub fn request_snapshot(&mut self) -> (r: bool)
        requires
            old(self).wf(),
        ensures
            final(self).wf(),
            final(self).token() == old(self).token(),
            final(self)@ == old(self)@.requested(),
            r == (old(self)@.state is Uninitialized || old(self)@.state is OutOfSync),
    {
        match self.state {
            SyncState::Uninitialized => {
                self.state = SyncState::Syncing;
                true
            },
            SyncState::OutOfSync => {
                self.state = SyncState::Syncing;
                true
            },
            _ => false,
        }
    }

    /// Notes that the fetch of a baseline failed.
    pub fn snapshot_failed(&mut self)
        requires
            old(self).wf(),
        ensures
            final(self).wf(),
            final(self).token() == old(self).token(),
            final(self)@ == old(self)@.fetch_failed(),
    {
        match self.state {
            SyncState::Syncing => {
                self.state = SyncState::OutOfSync;
            },
            _ => {},
        }
    }

    /// Notes that the feed was interrupted: what arrives from now on cannot
    /// be taken to continue what came before.
    pub fn mark_out_of_sync(&mut self)
        requires
            old(self).wf(),
        ensures
            final(self).wf(),
            final(self).token() == old(self).token(),
            final(self)@ == old(self)@.desynced(),
    {
        match self.state {
            SyncState::Closed => {},
            _ => {
                self.state = SyncState::OutOfSync;
            },
        }
    }

    /// Gives the instrument up: the book is emptied and takes nothing more.
    pub fn close(&mut self)
        requires
            old(self).wf(),
        ensures
            final(self).wf(),
            final(self).token() == old(self).token(),
            final(self)@ == old(self)@.shut(),
    {
        proof {
            reveal(is_ladder);
            reveal(is_queue);
        }
        self.state = SyncState::Closed;
        self.bids.clear();
        self.asks.clear();
        self.pending.clear();
    }

    /// Where the book stands between its baseline and the live feed.
    pub fn state(&self) -> (r: SyncState)
        ensures
            r == self@.state,
    {
        self.state
    }

    /// The sequence number of the last update that the ladders reflect.
    pub fn sequence(&self) -> (r: u64)
        ensures
            r == self@.last_sequence,
    {
        self.sequence
    }

    /// The timestamp of the last update that the ladders reflect.
    pub fn last_update(&self) -> (r: u64)
        ensures
            r == self@.last_update,
    {
        self.timestamp
    }

    /// Most levels the book tracks per side.
    pub fn max_depth(&self) -> (r: usize)
        ensures
            r == self@.depth,
    {
        self.max_depth
    }

    /// The number of deltas kept for replay.
    pub fn pending_len(&self) -> (r: usize)
        ensures
            r == self@.pending.len(),
    {
        self.pending.len()
    }

    /// The best bid: the highest price anyone bids, with the size at it.
    pub fn best_bid(&self) -> (r: Option<PriceLevel>)
        ensures
            r is Some <==> self@.bids.len() > 0,
            r is Some ==> r->Some_0 == self@.bids[0],
    {
        if self.bids.len() > 0 {
            Some(self.bids[0])
        } else {
            None
        }
    }

    /// The best ask: the lowest price anyone asks, with the size at it.
    pub fn best_ask(&self) -> (r: Option<PriceLevel>)
        ensures
            r is Some <==> self@.asks.len() > 0,
            r is Some ==> r->Some_0 == self@.asks[0],
    {
        if self.asks.len() > 0 {
            Some(self.asks[0])
        } else {
            None
        }
    }

    /// The levels of one side, best first.
    pub fn levels(&self, side: Side) -> (r: Vec<PriceLevel>)
        ensures
            r@ == self@.ladder(side),
    {
        match side {
            Side::BUY => copy_levels(&self.bids).0,
            Side::SELL => copy_levels(&self.asks).0,
        }
    }

    /// A copy of the book as it stands, with the sizes of each side added up.
    pub fn snapshot(&self) -> (r: OrderBookSummary)
        ensures
            r.token_id@ == self.token(),
            r.bids@ == self@.bids,
            r.asks@ == self@.asks,
            r.bid_size == total_size(self@.bids),
            r.ask_size == total_size(self@.asks),
            r.sequence == self@.last_sequence,
            r.last_update == self@.last_update,
            r.state == self@.state,
    {
        let (bids, bid_size) = copy_levels(&self.bids);
        let (asks, ask_size) = copy_levels(&self.asks);
        OrderBookSummary {
            token_id: self.token_id.clone(),
            bids,
            asks,
            bid_size,
            ask_size,
            sequence: self.sequence,
            last_update: self.timestamp,
            state: self.state,
        }
    }
}

/// Handing a book two runs of updates, one after the other, comes to handing
/// it the two as one batch: where a batch is cut changes nothing.
pub proof fn lemma_run_concat(b: BookModel, first: Seq<LevelUpdate>, second: Seq<LevelUpdate>)
    ensures
        run(b, first + second) == run(run(b, first), second),
    decreases second.len(),
{
    if second.len() == 0 {
        assert(first + second =~= first);
    } else {
        lemma_run_concat(b, first, second.drop_last());
        assert((first + second).drop_last() =~= first + second.drop_last());
    }
}

/// No update changes the bounds that a book was made with.
pub proof fn lemma_run_keeps_bounds(b: BookModel, updates: Seq<LevelUpdate>)
    ensures
        run(b, updates).depth == b.depth,
        run(b, updates).pending_limit == b.pending_limit,
    decreases updates.len(),
{
    if updates.len() > 0 {
        lemma_run_keeps_bounds(b, updates.drop_last());
    }
}

/// No baseline changes the bounds that a book was made with.
pub proof fn lemma_install_keeps_bounds(
    b: BookModel,
    bids: Seq<PriceLevel>,
    asks: Seq<PriceLevel>,
    sequence: u64,
    timestamp: u64,
)
    ensures
        install(b, bids, asks, sequence, timestamp).depth == b.depth,
        install(b, bids, asks, sequence, timestamp).pending_limit == b.pending_limit,
{
    lemma_run_keeps_bounds(rebased(b, bids, asks, sequence, timestamp), fresher(b.pending, sequence));
}

/// A batch of one update is that update.
pub proof fn lemma_run_one(b: BookModel, u: LevelUpdate)
    ensures
        run(b, seq![u]) == step(b, u),
{
    assert(seq![u].drop_last() =~= Seq::<LevelUpdate>::empty());
    reveal_with_fuel(run, 2);
}

/// The updates carry the sequence numbers that follow `after`, one by one.
pub open spec fn contiguous(updates: Seq<LevelUpdate>, after: u64) -> bool {
    forall|i: int| 0 <= i < updates.len() ==> (#[trigger] updates[i]).sequence == after + 1 + i
}

/// A live book that is handed the updates that follow its sequence number,
/// in order and without a hole, applies every one of them and stays live.
pub proof fn lemma_contiguous_run(b: BookModel, updates: Seq<LevelUpdate>)
    requires
        b.state is Live,
        contiguous(updates, b.last_sequence),
    ensures
        run(b, updates).state is Live,
        run(b, updates).last_sequence == b.last_sequence + updates.len(),
        run(b, updates).pending == b.pending,
        forall|i: int|
            0 <= i < updates.len() ==> #[trigger] outcomes(b, updates)[i] == DeltaOutcome::Applied,
    decreases updates.len(),
{
    if updates.len() > 0 {
        let front = updates.drop_last();
        lemma_contiguous_run(b, front);
        assert forall|i: int| 0 <= i < updates.len() implies #[trigger] outcomes(b, updates)[i]
            == DeltaOutcome::Applied by {
            if i < front.len() {
                assert(front.take(i) =~= updates.take(i));
                assert(outcomes(b, front)[i] == DeltaOutcome::Applied);
            } else {
                assert(updates.take(i) =~= front);
            }
        }
    }
}

/// A live book changes in nothing when it is handed an update whose sequence
/// number it has reached already.
pub proof fn lemma_stale_is_noop(b: BookModel, u: LevelUpdate)
    requires
        b.state is Live,
        u.sequence <= b.last_sequence,
    ensures
        step(b, u) == b,
        outcome_of(b, u) == DeltaOutcome::Stale,
{
}

/// Handing a live book the update it has just applied once more changes
/// nothing.
pub proof fn lemma_replay_is_noop(b: BookModel, u: LevelUpdate)
    requires
        b.state is Live,
        outcome_of(b, u) == DeltaOutcome::Applied,
    ensures
        step(step(b, u), u) == step(b, u),
{
}

/// A book that is not live keeps its ladders, its sequence number and its
/// state whatever updates it is handed.
pub proof fn lemma_not_live_is_frozen(b: BookModel, updates: Seq<LevelUpdate>)
    requires
        !(b.state is Live),
    ensures
        run(b, updates).bids == b.bids,
        run(b, updates).asks == b.asks,
        run(b, updates).last_sequence == b.last_sequence,
        run(b, updates).last_update == b.last_update,
        run(b, updates).state == b.state,
    decreases updates.len(),
{
    if updates.len() > 0 {
        lemma_not_live_is_frozen(b, updates.drop_last());
    }
}

/// An update that skips a sequence number puts a live book out of sync, and
/// no update that follows is applied: the ladders and the sequence number
/// stay as they were before the hole.
pub proof fn lemma_gap_suppresses(b: BookModel, gap: LevelUpdate, later: Seq<LevelUpdate>)
    requires
        b.state is Live,
        gap.sequence > b.last_sequence + 1,
    ensures
        outcome_of(b, gap) == DeltaOutcome::GapDetected,
        run(step(b, gap), later).state == SyncState::OutOfSync,
        run(step(b, gap), later).bids == b.bids,
        run(step(b, gap), later).asks == b.asks,
        run(step(b, gap), later).last_sequence == b.last_sequence,
{
    lemma_not_live_is_frozen(step(b, gap), later);
}

/// A baseline that is older than the book does not bring it back: the
/// ladders and the sequence number stay, and a book that was not live is not
/// live after it.
pub proof fn lemma_old_snapshot_is_ignored(
    b: BookModel,
    bids: Seq<PriceLevel>,
    asks: Seq<PriceLevel>,
    sequence: u64,
    timestamp: u64,
)
    requires
        sequence < b.last_sequence,
    ensures
        install(b, bids, asks, sequence, timestamp).bids == b.bids,
        install(b, bids, asks, sequence, timestamp).asks == b.asks,
        install(b, bids, asks, sequence, timestamp).last_sequence == b.last_sequence,
        !(b.state is Live) ==> !(install(b, bids, asks, sequence, timestamp).state is Live),
{
}

/// A baseline that is not older than the book ends the suppression: the book
/// is rebuilt from it, and goes on from there with the kept deltas that are
/// newer than the baseline.
pub proof fn lemma_snapshot_resumes(
    b: BookModel,
    bids: Seq<PriceLevel>,
    asks: Seq<PriceLevel>,
    sequence: u64,
    timestamp: u64,
)
    requires
        !(b.state is Closed),
        sequence >= b.last_sequence,
    ensures
        rebased(b, bids, asks, sequence, timestamp).state is Live,
        install(b, bids, asks, sequence, timestamp) == run(
            rebased(b, bids, asks, sequence, timestamp),
            fresher(b.pending, sequence),
        ),
        fresher(b.pending, sequence).len() == 0 ==> install(b, bids, asks, sequence, timestamp)
            == rebased(b, bids, asks, sequence, timestamp),
{
}

/// A baseline whose sides are ladders within the depth bound replaces the
/// book's ladders and sequence number exactly, whatever the book held: where
/// no kept delta is newer than the baseline, the book after it is live, at
/// the baseline's sequence number, with the baseline's levels and no others.
pub proof fn lemma_snapshot_replaces(
    b: BookModel,
    bids: Seq<PriceLevel>,
    asks: Seq<PriceLevel>,
    sequence: u64,
    timestamp: u64,
)
    requires
        !(b.state is Closed),
        sequence >= b.last_sequence,
        is_ladder(Side::BUY, bids),
        is_ladder(Side::SELL, asks),
        bids.len() <= b.depth,
        asks.len() <= b.depth,
        fresher(b.pending, sequence).len() == 0,
    ensures
        install(b, bids, asks, sequence, timestamp).bids == bids,
        install(b, bids, asks, sequence, timestamp).asks == asks,
        install(b, bids, asks, sequence, timestamp).last_sequence == sequence,
        install(b, bids, asks, sequence, timestamp).last_update == timestamp,
        install(b, bids, asks, sequence, timestamp).state is Live,
{
    lemma_ladder_of_ladder(Side::BUY, bids);
    lemma_ladder_of_ladder(Side::SELL, asks);
}

} // verus!
