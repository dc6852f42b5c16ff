use crate::book::{
    install, outcome_of, snapshot_outcome, step, BookModel, DeltaOutcome, SnapshotOutcome,
};
use crate::decode::{decode_bytes_spec, decode_spec, Decoder, MessageView, RawFrame};
use crate::errors::{DecodeError, PolyfillError};
use crate::manager::{entry, OrderBookManager};
use crate::stream::{
    ChannelType, StreamAction, StreamConfig, StreamEvent, StreamManager, StreamOutput,
};
use crate::types::StreamMessage;
use vstd::prelude::*;

verus! {

/// What became of a message that was handed on.
#[derive(Clone, Copy, Debug, PartialEq, Eq, Structural)]
pub enum Routed {
    /// A delta went to the book of its instrument.
    Delta(DeltaOutcome),
    /// A baseline went to the book of its instrument.
    Snapshot(SnapshotOutcome),
    /// The message is not for the books.
    Passed,
}

/// The streams and the books together: what the streams deliver goes to the
/// books, and what happens to a stream is told to the books it feeds.
#[derive(Debug)]
pub struct Engine {
    pub streams: StreamManager,
    pub books: OrderBookManager,
}

/// What the books make of a message.
pub open spec fn routed_spec(books: &OrderBookManager, message: MessageView) -> Routed {
    match message {
        MessageView::OrderDelta { token, update } => Routed::Delta(
            outcome_of(entry(books@, token, books.depth(), books.pending_limit()), update),
        ),
        MessageView::BookSnapshot { token, bids, asks, sequence, timestamp } => Routed::Snapshot(
            snapshot_outcome(entry(books@, token, books.depth(), books.pending_limit()), sequence),
        ),
        _ => Routed::Passed,
    }
}

/// The books after a message was handed on.
pub open spec fn books_after(books: &OrderBookManager, message: MessageView) -> Map<
    Seq<char>,
    BookModel,
> {
    match message {
        MessageView::OrderDelta { token, update } => books@.insert(
            token,
            step(entry(books@, token, books.depth(), books.pending_limit()), update),
        ),
        MessageView::BookSnapshot { token, bids, asks, sequence, timestamp } => books@.insert(
            token,
            install(
                entry(books@, token, books.depth(), books.pending_limit()),
                bids,
                asks,
                sequence,
                timestamp,
            ),
        ),
        _ => books@,
    }
}

/// The instrument and the channel that a message belongs to, where it
/// belongs to any.
pub open spec fn address_of(message: MessageView) -> Option<(Seq<char>, ChannelType)> {
    match message {
        MessageView::OrderDelta { token, update } => Some((token, ChannelType::Book)),
        MessageView::BookSnapshot { token, bids, asks, sequence, timestamp } => Some(
            (token, ChannelType::Book),
        ),
        MessageView::Trade { token, side, price, size, timestamp } => Some(
            (token, ChannelType::Trades),
        ),
        MessageView::TickSizeChange { token, old_tick_size, new_tick_size, timestamp } => Some(
            (token, ChannelType::Ticks),
        ),
        _ => None,
    }
}

impl Engine {
    /// The engine's invariant: that of its streams and that of its books.
    pub open spec fn wf(&self) -> bool {
        self.streams.wf() && self.books.wf()
    }

    /// An engine without streams and without books, or the configuration
    /// fault where the stream configuration is not valid or the depth is
    /// nought.
    pub fn new(config: StreamConfig, max_depth: usize, max_pending: usize) -> (r: Result<
        Engine,
        PolyfillError,
    >)
        ensures
            r is Ok <==> config.valid() && max_depth > 0,
            r is Ok ==> r->Ok_0.wf() && r->Ok_0.streams.count() == 0 && r->Ok_0.streams.config()
                == config && r->Ok_0.books@ == Map::<Seq<char>, BookModel>::empty() && r->Ok_0.books.depth() == max_depth && r->Ok_0.books.pending_limit()
                == max_pending,
            r is Err ==> r->Err_0 == PolyfillError::Configuration,
    {
        let streams: StreamManager = match StreamManager::new(config) {
            Ok(s) => s,
            Err(e) => {
                return Err(e);
            },
        };
        let books: OrderBookManager = match OrderBookManager::try_new(max_depth, max_pending) {
            Ok(b) => b,
            Err(e) => {
                return Err(e);
            },
        };
        Ok(Engine { streams, books })
    }

    /// Takes an event for the connection that `handle` names. The
    /// connection's machine moves on as [`StreamManager::on_event`] says.
    /// Where the event interrupts the stream, every instrument that the
    /// connection carries and that has a book is out of sync from then on;
    /// the books of the instruments of other connections stay as they are.
    pub fn on_stream_event(&mut self, handle: usize, event: StreamEvent, now: u64, jitter: u64) -> (r:
        StreamAction)
        requires
            old(self).wf(),
        ensures
            final(self).wf(),
            final(self).streams.config() == old(self).streams.config(),
            final(self).streams.count() == old(self).streams.count(),
            final(self).books.depth() == old(self).books.depth(),
            final(self).books.pending_limit() == old(self).books.pending_limit(),
            forall|h: int|
                0 <= h < old(self).streams.count() ==> final(self).streams.instruments(h) == old(self).streams.instruments(h) && final(self).streams.channels(h) == old(self).streams.channels(h),
            forall|h: int|
                0 <= h < old(self).streams.count() && h != handle ==> final(self).streams.status(h)
                    == old(self).streams.status(h),
            handle < old(self).streams.count() ==> final(self).streams.status(handle as int)
                == old(self).streams.status(handle as int).next(
                old(self).streams.config(),
                event,
                now,
            ) && r == old(self).streams.status(handle as int).action(
                old(self).streams.config(),
                event,
                now,
                jitter,
            ),
            handle >= old(self).streams.count() ==> r == StreamAction::Nothing,
            final(self).books@.dom() == old(self).books@.dom(),
            forall|id: Seq<char>| #[trigger]
                old(self).books@.contains_key(id) ==> final(self).books@[id] == (if handle < old(self).streams.count() && old(self).streams.status(handle as int).interrupts(
                    old(self).streams.config(),
                    event,
                    now,
                ) && old(self).streams.instruments(handle as int).contains(id) {
                    old(self).books@[id].desynced()
                } else {
                    old(self).books@[id]
                }),
    {
        let out: StreamOutput = self.streams.on_event(handle, event, now, jitter);
        self.books.mark_out_of_sync(&out.out_of_sync);
        out.action
    }

    /// Hands a decoded message on: a delta or a baseline goes to the book
    /// of its instrument, which is made first if there is none; any other
    /// message changes nothing here. The streams are left as they are.
    pub fn on_message(&mut self, message: StreamMessage) -> (r: Routed)
        requires
            old(self).wf(),
        ensures
            final(self).wf(),
            final(self).streams == old(self).streams,
            final(self).books.depth() == old(self).books.depth(),
            final(self).books.pending_limit() == old(self).books.pending_limit(),
            r == routed_spec(&old(self).books, message@),
            final(self).books@ == books_after(&old(self).books, message@),
    {
        match message {
            StreamMessage::OrderDelta(delta) => Routed::Delta(self.books.apply_delta(delta)),
            StreamMessage::BookSnapshot(snapshot) => Routed::Snapshot(
                self.books.apply_snapshot(&snapshot),
            ),
            _ => Routed::Passed,
        }
    }

    /// The subscriptions that a message is to be forwarded to, in the order
    /// in which they were made: those that asked for the message's channel
    /// of its instrument. A message without an instrument goes to none.
    pub fn audience(&self, message: &StreamMessage) -> (r: Vec<usize>)
        ensures
            address_of(message@) is None ==> r@.len() == 0,
            address_of(message@) is Some ==> {
                let token = address_of(message@)->Some_0.0;
                let channel = address_of(message@)->Some_0.1;
                &&& forall|i: int|
                    0 <= i < r@.len() ==> (#[trigger] r@[i]) < self.streams.count()
                        && self.streams.wants(r@[i] as int, token, channel)
                &&& forall|h: int|
                    0 <= h < self.streams.count() && self.streams.wants(h, token, channel)
                        ==> r@.contains(h as usize)
                &&& forall|i: int, j: int| 0 <= i < j < r@.len() ==> r@[i] < r@[j]
            },
    {
        match message {
            StreamMessage::OrderDelta(d) => self.streams.interested(
                d.token_id.as_str(),
                ChannelType::Book,
            ),
            StreamMessage::BookSnapshot(b) => self.streams.interested(
                b.token_id.as_str(),
                ChannelType::Book,
            ),
            StreamMessage::Trade(t) => self.streams.interested(
                t.token_id.as_str(),
                ChannelType::Trades,
            ),
            StreamMessage::TickSizeChange(c) => self.streams.interested(
                c.token_id.as_str(),
                ChannelType::Ticks,
            ),
            _ => Vec::new(),
        }
    }

    /// Decodes the bytes of a frame and hands the message on. A frame that
    /// cannot be decoded changes nothing: the fault is returned and the
    /// stream goes on.
    pub fn on_bytes(&mut self, raw: &[u8]) -> (r: Result<Routed, DecodeError>)
        requires
            old(self).wf(),
        ensures
            final(self).wf(),
            final(self).streams == old(self).streams,
            final(self).books.depth() == old(self).books.depth(),
            final(self).books.pending_limit() == old(self).books.pending_limit(),
            r is Ok <==> decode_bytes_spec(raw@) is Ok,
            r is Err ==> r->Err_0 == decode_bytes_spec(raw@)->Err_0 && final(self).books@ == old(self).books@,
            r is Ok ==> r->Ok_0 == routed_spec(&old(self).books, decode_bytes_spec(raw@)->Ok_0)
                && final(self).books@ == books_after(
                &old(self).books,
                decode_bytes_spec(raw@)->Ok_0,
            ),
    {
        let decoder = Decoder::new();
        match decoder.decode_bytes(raw) {
            Err(e) => Err(e),
            Ok(message) => Ok(self.on_message(message)),
        }
    }

    /// Decodes a frame that was cut into its fields and hands the message
    /// on. A frame that cannot be decoded changes nothing: the fault is
    /// returned and the stream goes on.
    pub fn on_frame(&mut self, frame: &RawFrame) -> (r: Result<Routed, DecodeError>)
        requires
            old(self).wf(),
        ensures
            final(self).wf(),
            final(self).streams == old(self).streams,
            final(self).books.depth() == old(self).books.depth(),
            final(self).books.pending_limit() == old(self).books.pending_limit(),
            r is Ok <==> decode_spec(frame@) is Ok,
            r is Err ==> r->Err_0 == decode_spec(frame@)->Err_0 && final(self).books@ == old(self).books@,
            r is Ok ==> r->Ok_0 == routed_spec(&old(self).books, decode_spec(frame@)->Ok_0)
                && final(self).books@ == books_after(&old(self).books, decode_spec(frame@)->Ok_0),
    {
        let decoder = Decoder::new();
        match decoder.decode(frame) {
            Err(e) => Err(e),
            Ok(message) => Ok(self.on_message(message)),
        }
    }
}

} // verus!
