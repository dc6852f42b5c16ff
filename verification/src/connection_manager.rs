use crate::backoff::{doubled, doubled_delay};
use crate::errors::PolyfillError;
use vstd::prelude::*;

verus! {

/// Thousandths of a token that make one token.
pub const TOKEN: u64 = 1000;

/// The content of a token bucket. Tokens are counted in thousandths, so that
/// a refill rate given per second is exact at a resolution of a millisecond.
pub struct BucketModel {
    /// Most tokens the bucket holds: the size of a burst.
    pub capacity: u64,
    /// Tokens added per second.
    pub rate: u64,
    /// Thousandths of a token in the bucket.
    pub level: u64,
    /// When the level was last brought up to date, in milliseconds.
    pub stamp: u64,
}

impl BucketModel {
    /// The invariant of a bucket: burst and rate are positive, and the
    /// level is within the burst.
    pub open spec fn wf(self) -> bool {
        &&& 0 < self.capacity <= u64::MAX / 1000
        &&& 0 < self.rate
        &&& self.level <= self.capacity * 1000
    }

    /// The bucket brought up to date at `now`: a millisecond adds `rate`
    /// thousandths, up to the capacity. A clock that went back adds nothing.
    pub open spec fn refilled(self, now: u64) -> BucketModel {
        if now <= self.stamp {
            self
        } else {
            let grown = self.level + (now - self.stamp) * self.rate;
            BucketModel {
                level: if grown >= self.capacity * 1000 {
                    (self.capacity * 1000) as u64
                } else {
                    grown as u64
                },
                stamp: now,
                ..self
            }
        }
    }

    /// A call may go out at `now`.
    pub open spec fn admits(self, now: u64) -> bool {
        self.refilled(now).level >= 1000
    }

    /// The bucket after a call was asked for at `now`: up to date, and less
    /// one token where the call may go out.
    pub open spec fn asked(self, now: u64) -> BucketModel {
        if self.admits(now) {
            BucketModel { level: (self.refilled(now).level - 1000) as u64, ..self.refilled(now) }
        } else {
            self.refilled(now)
        }
    }
}

/// A token bucket that bounds the rate of outbound calls.
#[derive(Debug)]
pub struct RateLimiter {
    capacity: u64,
    rate: u64,
    level: u64,
    stamp: u64,
}

impl View for RateLimiter {
    type V = BucketModel;

    closed spec fn view(&self) -> BucketModel {
        BucketModel { capacity: self.capacity, rate: self.rate, level: self.level, stamp: self.stamp }
    }
}

impl RateLimiter {
    /// The limiter's invariant: that of its bucket.
    pub open spec fn wf(&self) -> bool {
        self@.wf()
    }

    /// A full bucket of `burst` tokens that gains `rate_per_sec` tokens a
    /// second, or the configuration fault where one of the two is nought or
    /// the burst is too large to count.
    pub fn new(rate_per_sec: u64, burst: u64, now: u64) -> (r: Result<RateLimiter, PolyfillError>)
        ensures
            r is Ok <==> 0 < rate_per_sec && 0 < burst <= u64::MAX / 1000,
            r is Ok ==> r->Ok_0.wf() && r->Ok_0@ == (BucketModel {
                capacity: burst,
                rate: rate_per_sec,
                level: (burst * 1000) as u64,
                stamp: now,
            }),
            r is Err ==> r->Err_0 == PolyfillError::Configuration,
    {
        if rate_per_sec == 0 || burst == 0 || burst > u64::MAX / 1000 {
            Err(PolyfillError::Configuration)
        } else {
            Ok(RateLimiter { capacity: burst, rate: rate_per_sec, level: burst * 1000, stamp: now })
        }
    }

    fn refill(&mut self, now: u64)
        requires
            old(self).wf(),
        ensures
            final(self).wf(),
            final(self)@ == old(self)@.refilled(now),
    {
        if now <= self.stamp {
            return ;
        }
        let full: u64 = self.capacity * 1000;
        let gap: u64 = now - self.stamp;
        proof {
            assert(gap * self.rate <= u64::MAX * u64::MAX) by (nonlinear_arith)
                requires
                    gap <= u64::MAX,
                    self.rate <= u64::MAX,
            ;
            assert(gap * self.rate >= 0) by (nonlinear_arith)
                requires
                    gap >= 0,
                    self.rate >= 0,
            ;
        }
        let grown: u128 = self.level as u128 + (gap as u128) * (self.rate as u128);
        if grown >= full as u128 {
            self.level = full;
        } else {
            self.level = grown as u64;
        }
        self.stamp = now;
    }

    /// Asks for one call at `now`. The call may go out where the bucket,
    /// brought up to date, holds a token, which is then taken; otherwise the
    /// caller is told to wait.
    pub fn try_acquire(&mut self, now: u64) -> (r: Result<(), PolyfillError>)
        requires
            old(self).wf(),
        ensures
            final(self).wf(),
            final(self)@ == old(self)@.asked(now),
            r is Ok <==> old(self)@.admits(now),
            r is Err ==> r->Err_0 == PolyfillError::RateLimited,
    {
        self.refill(now);
        if self.level >= TOKEN {
            self.level = self.level - TOKEN;
            Ok(())
        } else {
            Err(PolyfillError::RateLimited)
        }
    }

    /// Whole tokens in the bucket as it was last brought up to date.
    pub fn available(&self) -> (r: u64)
        ensures
            r == self@.level / 1000,
    {
        self.level / TOKEN
    }
}

/// A bucket never holds more than its burst, and a burst of calls at one
/// instant gets through exactly as far as the bucket holds tokens: after a
/// call that was admitted the bucket holds one token fewer, after one that
/// was not it holds what it held.
pub proof fn lemma_bucket_bounds(b: BucketModel, now: u64)
    requires
        b.wf(),
    ensures
        b.refilled(now).wf(),
        b.asked(now).wf(),
        b.refilled(now).level >= b.level,
        b.admits(now) ==> b.asked(now).level + 1000 == b.refilled(now).level,
        !b.admits(now) ==> b.asked(now).level == b.refilled(now).level,
        b.asked(now).refilled(now) == b.asked(now),
{
    if now > b.stamp {
        assert((now - b.stamp) * b.rate >= 0) by (nonlinear_arith)
            requires
                now - b.stamp >= 0,
                b.rate >= 0,
        ;
    }
}

/// Why an outbound call failed.
#[derive(Clone, Copy, Debug, PartialEq, Eq, Structural)]
pub enum Failure {
    Timeout,
    ServerError,
    ConnectionReset,
    Authentication,
    Validation,
}

/// What to do after an outbound call failed.
#[derive(Clone, Copy, Debug, PartialEq, Eq, Structural)]
pub enum RetryDecision {
    /// Try again after the delay, in milliseconds.
    RetryAfter { delay_ms: u64 },
    GiveUp,
}

impl Failure {
    /// The failure may go away by itself: a later attempt can succeed. A
    /// call that was refused for what it says cannot succeed as it is.
    pub open spec fn spec_is_transient(self) -> bool {
        self is Timeout || self is ServerError || self is ConnectionReset
    }

    #[verifier::when_used_as_spec(spec_is_transient)]
    pub fn is_transient(self) -> (r: bool)
        ensures
            r == self.spec_is_transient(),
    {
        match self {
            Failure::Timeout => true,
            Failure::ServerError => true,
            Failure::ConnectionReset => true,
            _ => false,
        }
    }
}

/// Bounded retry with backoff for outbound calls.
#[derive(Clone, Copy, Debug, PartialEq, Eq, Structural)]
pub struct RetryPolicy {
    pub max_retries: u32,
    pub base_delay_ms: u64,
    pub max_delay_ms: u64,
}

impl RetryPolicy {
    /// The first delay is positive and within the cap.
    pub open spec fn valid(self) -> bool {
        0 < self.base_delay_ms <= self.max_delay_ms
    }

    /// What to do after the call failed for the `attempt`-th time in a row,
    /// counted from nought: a transient failure is tried again, after a
    /// delay that doubles from one attempt to the next up to a cap, until
    /// the retries are used up; any other failure is given up at once.
    pub open spec fn decision(self, attempt: u32, failure: Failure) -> RetryDecision {
        if failure.is_transient() && attempt < self.max_retries {
            RetryDecision::RetryAfter {
                delay_ms: doubled(self.base_delay_ms, self.max_delay_ms, attempt) as u64,
            }
        } else {
            RetryDecision::GiveUp
        }
    }

    /// A policy, or the configuration fault where the first delay is nought
    /// or exceeds the cap.
    pub fn new(max_retries: u32, base_delay_ms: u64, max_delay_ms: u64) -> (r: Result<
        RetryPolicy,
        PolyfillError,
    >)
        ensures
            r is Ok <==> 0 < base_delay_ms <= max_delay_ms,
            r is Ok ==> r->Ok_0 == (RetryPolicy { max_retries, base_delay_ms, max_delay_ms }),
            r is Err ==> r->Err_0 == PolyfillError::Configuration,
    {
        if base_delay_ms == 0 || base_delay_ms > max_delay_ms {
            Err(PolyfillError::Configuration)
        } else {
            Ok(RetryPolicy { max_retries, base_delay_ms, max_delay_ms })
        }
    }

    /// Computes [`RetryPolicy::decision`].
    pub fn decide(&self, attempt: u32, failure: Failure) -> (r: RetryDecision)
        requires
            self.valid(),
        ensures
            r == self.decision(attempt, failure),
    {
        if failure.is_transient() && attempt < self.max_retries {
            RetryDecision::RetryAfter {
                delay_ms: doubled_delay(self.base_delay_ms, self.max_delay_ms, attempt),
            }
        } else {
            RetryDecision::GiveUp
        }
    }
}

/// What a slot of the pool is doing.
#[derive(Clone, Copy, Debug, PartialEq, Eq, Structural)]
pub enum SlotState {
    /// Connected and free.
    Idle,
    /// Handed out.
    Busy,
    /// Found dead: it has to be connected again before it is used.
    Failed,
}

/// The first slot of the pool that is idle, if any.
pub open spec fn first_idle(slots: Seq<SlotState>) -> Option<int> {
    if exists|i: int| 0 <= i < slots.len() && slots[i] is Idle {
        Some(
            choose|i: int|
                0 <= i < slots.len() && slots[i] is Idle && forall|j: int|
                    0 <= j < i ==> !(#[trigger] slots[j] is Idle),
        )
    } else {
        None
    }
}

/// A bounded pool of transport connections. The pool keeps the books: which
/// slot is free, which is handed out, which was found dead. The transports
/// themselves stay with the caller, one for each slot.
#[derive(Debug)]
pub struct ConnectionPool {
    slots: Vec<SlotState>,
    max_size: usize,
}

impl View for ConnectionPool {
    type V = Seq<SlotState>;

    closed spec fn view(&self) -> Seq<SlotState> {
        self.slots@
    }
}

impl ConnectionPool {
    /// Most slots the pool grows to.
    pub closed spec fn limit(&self) -> nat {
        self.max_size as nat
    }

    /// The pool's invariant: it has no more slots than its limit.
    pub closed spec fn wf(&self) -> bool {
        self.slots@.len() <= self.max_size
    }

    /// A pool without slots that grows to `max_size`, or the configuration
    /// fault where that is nought.
    pub fn new(max_size: usize) -> (r: Result<ConnectionPool, PolyfillError>)
        ensures
            r is Ok <==> max_size > 0,
            r is Ok ==> r->Ok_0.wf() && r->Ok_0@.len() == 0 && r->Ok_0.limit() == max_size,
            r is Err ==> r->Err_0 == PolyfillError::Configuration,
    {
        if max_size == 0 {
            Err(PolyfillError::Configuration)
        } else {
            Ok(ConnectionPool { slots: Vec::new(), max_size })
        }
    }

    /// Hands out a connection: the first idle slot; where none is idle, a
    /// new slot while the pool may grow; nothing where it may not.
    pub fn acquire(&mut self) -> (r: Option<usize>)
        requires
            old(self).wf(),
        ensures
            final(self).wf(),
            final(self).limit() == old(self).limit(),
            match first_idle(old(self)@) {
                Some(i) => r == Some(i as usize) && final(self)@ == old(self)@.update(
                    i,
                    SlotState::Busy,
                ),
                None => if old(self)@.len() < old(self).limit() {
                    r == Some(old(self)@.len() as usize) && final(self)@ == old(self)@.push(
                        SlotState::Busy,
                    )
                } else {
                    r is None && final(self)@ == old(self)@
                },
            },
    {
        let n: usize = self.slots.len();
        let mut i: usize = 0;
        while i < n
            invariant
                i <= n,
                n == self.slots@.len(),
                self.slots@ == old(self).slots@,
                self.max_size == old(self).max_size,
                n <= self.max_size,
                forall|j: int| 0 <= j < i ==> !(#[trigger] self.slots@[j] is Idle),
            decreases n - i,
        {
            match self.slots[i] {
                SlotState::Idle => {
                    proof {
                        let s = self.slots@;
                        let w = first_idle(s)->Some_0;
                        assert(s[i as int] is Idle);
                        if w < i {
                            assert(!(s[w] is Idle));
                        } else if w > i {
                            assert(!(s[i as int] is Idle));
                        }
                    }
                    self.slots[i] = SlotState::Busy;
                    return Some(i);
                },
                _ => {},
            }
            i += 1;
        }
        if n < self.max_size {
            self.slots.push(SlotState::Busy);
            Some(n)
        } else {
            None
        }
    }

    /// Takes a connection back: its slot is idle again, or failed where the
    /// caller found the connection dead. Only a slot that is handed out can
    /// be taken back; says whether it was.
    pub fn release(&mut self, slot: usize, healthy: bool) -> (r: bool)
        requires
            old(self).wf(),
        ensures
            final(self).wf(),
            final(self).limit() == old(self).limit(),
            r == (slot < old(self)@.len() && old(self)@[slot as int] is Busy),
            r ==> final(self)@ == old(self)@.update(
                slot as int,
                if healthy {
                    SlotState::Idle
                } else {
                    SlotState::Failed
                },
            ),
            !r ==> final(self)@ == old(self)@,
    {
        if slot >= self.slots.len() {
            return false;
        }
        match self.slots[slot] {
            SlotState::Busy => {
                self.slots[slot] = if healthy {
                    SlotState::Idle
                } else {
                    SlotState::Failed
                };
                true
            },
            _ => false,
        }
    }

    /// Notes the outcome of a health check on a slot that is not handed
    /// out: a check that passed makes it idle, one that failed makes it
    /// failed. A busy slot, or none, is left alone; says whether the outcome
    /// was noted.
    pub fn check(&mut self, slot: usize, healthy: bool) -> (r: bool)
        requires
            old(self).wf(),
        ensures
            final(self).wf(),
            final(self).limit() == old(self).limit(),
            r == (slot < old(self)@.len() && !(old(self)@[slot as int] is Busy)),
            r ==> final(self)@ == old(self)@.update(
                slot as int,
                if healthy {
                    SlotState::Idle
                } else {
                    SlotState::Failed
                },
            ),
            !r ==> final(self)@ == old(self)@,
    {
        if slot >= self.slots.len() {
            return false;
        }
        match self.slots[slot] {
            SlotState::Busy => false,
            _ => {
                self.slots[slot] = if healthy {
                    SlotState::Idle
                } else {
                    SlotState::Failed
                };
                true
            },
        }
    }
}

} // verus!
