use crate::decimal::{parse_spec, Decimal};
use crate::errors::DecodeError;
use crate::frame::{frame_spec, parse_frame};
use crate::text::{bytes_of, integer_spec, parse_integer, same_text};
use crate::types::{
    BookSnapshot, LevelUpdate, OrderDelta, PriceLevel, Side, StreamMessage, TickSizeChange, Trade,
};
use vstd::prelude::*;
use vstd::string::StringSliceAdditionalSpecFns;

verus! {

/// One level of a ladder as the feed writes it.
#[derive(Clone, Debug)]
pub struct RawLevel {
    pub price: String,
    pub size: String,
}

/// A frame of the feed, cut into its fields and otherwise as it came: every
/// field is text, and any of them may be absent.
#[derive(Clone, Debug)]
pub struct RawFrame {
    pub event_type: Option<String>,
    pub asset_id: Option<String>,
    pub side: Option<String>,
    pub price: Option<String>,
    pub size: Option<String>,
    pub sequence: Option<String>,
    pub timestamp: Option<String>,
    pub old_tick_size: Option<String>,
    pub new_tick_size: Option<String>,
    pub bids: Option<Vec<RawLevel>>,
    pub asks: Option<Vec<RawLevel>>,
    pub message: Option<String>,
}

/// One raw level, by its texts.
pub struct LevelText {
    pub price: Seq<char>,
    pub size: Seq<char>,
}

/// A raw frame, by the texts of its fields.
pub struct FrameView {
    pub event_type: Option<Seq<char>>,
    pub asset_id: Option<Seq<char>>,
    pub side: Option<Seq<char>>,
    pub price: Option<Seq<char>>,
    pub size: Option<Seq<char>>,
    pub sequence: Option<Seq<char>>,
    pub timestamp: Option<Seq<char>>,
    pub old_tick_size: Option<Seq<char>>,
    pub new_tick_size: Option<Seq<char>>,
    pub bids: Option<Seq<LevelText>>,
    pub asks: Option<Seq<LevelText>>,
    pub message: Option<Seq<char>>,
}

/// The text of a field, if it is there.
pub open spec fn text_view(f: Option<String>) -> Option<Seq<char>> {
    match f {
        None => None,
        Some(s) => Some(s@),
    }
}

/// The texts of a list of raw levels.
pub open spec fn level_texts(raw: Seq<RawLevel>) -> Seq<LevelText> {
    Seq::new(raw.len(), |i: int| raw[i]@)
}

/// The texts of a field that is a list of levels, if it is there.
pub open spec fn levels_view(f: Option<Vec<RawLevel>>) -> Option<Seq<LevelText>> {
    match f {
        None => None,
        Some(raw) => Some(level_texts(raw@)),
    }
}

impl View for RawLevel {
    type V = LevelText;

    open spec fn view(&self) -> LevelText {
        LevelText { price: self.price@, size: self.size@ }
    }
}

impl View for RawFrame {
    type V = FrameView;

    open spec fn view(&self) -> FrameView {
        FrameView {
            event_type: text_view(self.event_type),
            asset_id: text_view(self.asset_id),
            side: text_view(self.side),
            price: text_view(self.price),
            size: text_view(self.size),
            sequence: text_view(self.sequence),
            timestamp: text_view(self.timestamp),
            old_tick_size: text_view(self.old_tick_size),
            new_tick_size: text_view(self.new_tick_size),
            bids: levels_view(self.bids),
            asks: levels_view(self.asks),
            message: text_view(self.message),
        }
    }
}

impl FrameView {
    /// A frame without any field.
    pub open spec fn empty() -> FrameView {
        FrameView {
            event_type: None,
            asset_id: None,
            side: None,
            price: None,
            size: None,
            sequence: None,
            timestamp: None,
            old_tick_size: None,
            new_tick_size: None,
            bids: None,
            asks: None,
            message: None,
        }
    }
}

/// The content of a decoded message.
pub enum MessageView {
    OrderDelta { token: Seq<char>, update: LevelUpdate },
    Trade { token: Seq<char>, side: Side, price: Decimal, size: Decimal, timestamp: u64 },
    TickSizeChange {
        token: Seq<char>,
        old_tick_size: Decimal,
        new_tick_size: Decimal,
        timestamp: u64,
    },
    BookSnapshot {
        token: Seq<char>,
        bids: Seq<PriceLevel>,
        asks: Seq<PriceLevel>,
        sequence: u64,
        timestamp: u64,
    },
    Heartbeat,
    Error { text: Seq<char> },
    Unknown,
}

impl View for StreamMessage {
    type V = MessageView;

    open spec fn view(&self) -> MessageView {
        match self {
            StreamMessage::OrderDelta(d) => MessageView::OrderDelta {
                token: d.token_id@,
                update: d.update(),
            },
            StreamMessage::Trade(t) => MessageView::Trade {
                token: t.token_id@,
                side: t.side,
                price: t.price,
                size: t.size,
                timestamp: t.timestamp,
            },
            StreamMessage::TickSizeChange(c) => MessageView::TickSizeChange {
                token: c.token_id@,
                old_tick_size: c.old_tick_size,
                new_tick_size: c.new_tick_size,
                timestamp: c.timestamp,
            },
            StreamMessage::BookSnapshot(b) => MessageView::BookSnapshot {
                token: b.token_id@,
                bids: b.bids@,
                asks: b.asks@,
                sequence: b.sequence,
                timestamp: b.timestamp,
            },
            StreamMessage::Heartbeat => MessageView::Heartbeat,
            StreamMessage::Error(text) => MessageView::Error { text: text@ },
            StreamMessage::Unknown => MessageView::Unknown,
        }
    }
}

/// A field that has to be there, as text.
pub open spec fn field_text(f: Option<Seq<char>>) -> Result<Seq<char>, DecodeError> {
    match f {
        None => Err(DecodeError::MissingField),
        Some(s) => Ok(s),
    }
}

/// A field that has to be there and to be an exact decimal.
pub open spec fn field_decimal(f: Option<Seq<char>>) -> Result<Decimal, DecodeError> {
    match f {
        None => Err(DecodeError::MissingField),
        Some(s) => parse_spec(bytes_of(s)),
    }
}

/// A field that has to be there and to be a whole number.
pub open spec fn field_integer(f: Option<Seq<char>>) -> Result<u64, DecodeError> {
    match f {
        None => Err(DecodeError::MissingField),
        Some(s) => integer_spec(bytes_of(s)),
    }
}

/// The side that a text names.
pub open spec fn side_spec(s: Seq<char>) -> Result<Side, DecodeError> {
    if s == "BUY"@ {
        Ok(Side::BUY)
    } else if s == "SELL"@ {
        Ok(Side::SELL)
    } else {
        Err(DecodeError::UnknownSide)
    }
}

/// A field that has to be there and to name a side.
pub open spec fn field_side(f: Option<Seq<char>>) -> Result<Side, DecodeError> {
    match f {
        None => Err(DecodeError::MissingField),
        Some(s) => side_spec(s),
    }
}

/// The levels that a list of raw levels writes, or the fault of the first
/// number in it that cannot be read.
pub open spec fn levels_spec(raw: Seq<LevelText>) -> Result<Seq<PriceLevel>, DecodeError>
    decreases raw.len(),
{
    if raw.len() == 0 {
        Ok(Seq::empty())
    } else {
        let before = levels_spec(raw.drop_last());
        let price = parse_spec(bytes_of(raw.last().price));
        let size = parse_spec(bytes_of(raw.last().size));
        if before is Err {
            Err(before->Err_0)
        } else if price is Err {
            Err(price->Err_0)
        } else if size is Err {
            Err(size->Err_0)
        } else {
            Ok(before->Ok_0.push(PriceLevel { price: price->Ok_0, size: size->Ok_0 }))
        }
    }
}

/// A field that has to be there and to be a list of levels.
pub open spec fn field_levels(f: Option<Seq<LevelText>>) -> Result<Seq<PriceLevel>, DecodeError> {
    match f {
        None => Err(DecodeError::MissingField),
        Some(raw) => levels_spec(raw),
    }
}

/// What a frame that announces a delta decodes to.
pub open spec fn delta_spec(frame: FrameView) -> Result<MessageView, DecodeError> {
    let token = field_text(frame.asset_id);
    let side = field_side(frame.side);
    let price = field_decimal(frame.price);
    let size = field_decimal(frame.size);
    let sequence = field_integer(frame.sequence);
    let timestamp = field_integer(frame.timestamp);
    if token is Err {
        Err(token->Err_0)
    } else if side is Err {
        Err(side->Err_0)
    } else if price is Err {
        Err(price->Err_0)
    } else if size is Err {
        Err(size->Err_0)
    } else if sequence is Err {
        Err(sequence->Err_0)
    } else if timestamp is Err {
        Err(timestamp->Err_0)
    } else {
        Ok(
            MessageView::OrderDelta {
                token: token->Ok_0,
                update: LevelUpdate {
                    side: side->Ok_0,
                    price: price->Ok_0,
                    size: size->Ok_0,
                    sequence: sequence->Ok_0,
                    timestamp: timestamp->Ok_0,
                },
            },
        )
    }
}

/// What a frame that announces a trade decodes to.
pub open spec fn trade_spec(frame: FrameView) -> Result<MessageView, DecodeError> {
    let token = field_text(frame.asset_id);
    let side = field_side(frame.side);
    let price = field_decimal(frame.price);
    let size = field_decimal(frame.size);
    let timestamp = field_integer(frame.timestamp);
    if token is Err {
        Err(token->Err_0)
    } else if side is Err {
        Err(side->Err_0)
    } else if price is Err {
        Err(price->Err_0)
    } else if size is Err {
        Err(size->Err_0)
    } else if timestamp is Err {
        Err(timestamp->Err_0)
    } else {
        Ok(
            MessageView::Trade {
                token: token->Ok_0,
                side: side->Ok_0,
                price: price->Ok_0,
                size: size->Ok_0,
                timestamp: timestamp->Ok_0,
            },
        )
    }
}

/// What a frame that announces a change of tick size decodes to.
pub open spec fn tick_spec(frame: FrameView) -> Result<MessageView, DecodeError> {
    let token = field_text(frame.asset_id);
    let old_tick_size = field_decimal(frame.old_tick_size);
    let new_tick_size = field_decimal(frame.new_tick_size);
    let timestamp = field_integer(frame.timestamp);
    if token is Err {
        Err(token->Err_0)
    } else if old_tick_size is Err {
        Err(old_tick_size->Err_0)
    } else if new_tick_size is Err {
        Err(new_tick_size->Err_0)
    } else if timestamp is Err {
        Err(timestamp->Err_0)
    } else {
        Ok(
            MessageView::TickSizeChange {
                token: token->Ok_0,
                old_tick_size: old_tick_size->Ok_0,
                new_tick_size: new_tick_size->Ok_0,
                timestamp: timestamp->Ok_0,
            },
        )
    }
}

/// What a frame that announces a baseline decodes to.
pub open spec fn snapshot_spec(frame: FrameView) -> Result<MessageView, DecodeError> {
    let token = field_text(frame.asset_id);
    let bids = field_levels(frame.bids);
    let asks = field_levels(frame.asks);
    let sequence = field_integer(frame.sequence);
    let timestamp = field_integer(frame.timestamp);
    if token is Err {
        Err(token->Err_0)
    } else if bids is Err {
        Err(bids->Err_0)
    } else if asks is Err {
        Err(asks->Err_0)
    } else if sequence is Err {
        Err(sequence->Err_0)
    } else if timestamp is Err {
        Err(timestamp->Err_0)
    } else {
        Ok(
            MessageView::BookSnapshot {
                token: token->Ok_0,
                bids: bids->Ok_0,
                asks: asks->Ok_0,
                sequence: sequence->Ok_0,
                timestamp: timestamp->Ok_0,
            },
        )
    }
}

/// What a frame decodes to. The kind of the frame has to be there; a kind
/// that is not known gives `Unknown`, which is no fault. For a known kind
/// the fields it needs are read in a fixed order, and the first that is
/// absent or cannot be read gives the fault.
pub open spec fn decode_spec(frame: FrameView) -> Result<MessageView, DecodeError> {
    match frame.event_type {
        None => Err(DecodeError::MissingField),
        Some(kind) => if kind == "delta"@ {
            delta_spec(frame)
        } else if kind == "snapshot"@ {
            snapshot_spec(frame)
        } else if kind == "trade"@ {
            trade_spec(frame)
        } else if kind == "tick_size_change"@ {
            tick_spec(frame)
        } else if kind == "heartbeat"@ {
            Ok(MessageView::Heartbeat)
        } else if kind == "error"@ {
            match frame.message {
                None => Err(DecodeError::MissingField),
                Some(text) => Ok(MessageView::Error { text }),
            }
        } else {
            Ok(MessageView::Unknown)
        },
    }
}

/// What the bytes of a frame decode to.
pub open spec fn decode_bytes_spec(raw: Seq<u8>) -> Result<MessageView, DecodeError> {
    match frame_spec(raw) {
        Err(e) => Err(e),
        Ok(frame) => decode_spec(frame),
    }
}

fn text_field(f: &Option<String>) -> (r: Result<String, DecodeError>)
    ensures
        r is Ok <==> field_text(text_view(*f)) is Ok,
        r is Ok ==> r->Ok_0@ == field_text(text_view(*f))->Ok_0,
        r is Err ==> r->Err_0 == field_text(text_view(*f))->Err_0,
{
    match f {
        None => Err(DecodeError::MissingField),
        Some(s) => Ok(s.clone()),
    }
}

fn decimal_field(f: &Option<String>) -> (r: Result<Decimal, DecodeError>)
    ensures
        r == field_decimal(text_view(*f)),
{
    match f {
        None => Err(DecodeError::MissingField),
        Some(s) => Decimal::from_str(s.as_str()),
    }
}

fn integer_field(f: &Option<String>) -> (r: Result<u64, DecodeError>)
    ensures
        r == field_integer(text_view(*f)),
{
    match f {
        None => Err(DecodeError::MissingField),
        Some(s) => parse_integer(s.as_str().as_bytes()),
    }
}

/// Reads a side from its name.
pub fn parse_side(text: &str) -> (r: Result<Side, DecodeError>)
    ensures
        r == side_spec(text@),
{
    if same_text(text, "BUY") {
        Ok(Side::BUY)
    } else if same_text(text, "SELL") {
        Ok(Side::SELL)
    } else {
        Err(DecodeError::UnknownSide)
    }
}

fn side_field(f: &Option<String>) -> (r: Result<Side, DecodeError>)
    ensures
        r == field_side(text_view(*f)),
{
    match f {
        None => Err(DecodeError::MissingField),
        Some(s) => parse_side(s.as_str()),
    }
}

fn levels_field(f: &Option<Vec<RawLevel>>) -> (r: Result<Vec<PriceLevel>, DecodeError>)
    ensures
        r is Ok <==> field_levels(levels_view(*f)) is Ok,
        r is Ok ==> r->Ok_0@ == field_levels(levels_view(*f))->Ok_0,
        r is Err ==> r->Err_0 == field_levels(levels_view(*f))->Err_0,
{
    match f {
        None => Err(DecodeError::MissingField),
        Some(raw) => {
            let mut out: Vec<PriceLevel> = Vec::new();
            let n: usize = raw.len();
            let mut i: usize = 0;
            let ghost texts = level_texts(raw@);
            proof {
                assert(texts.take(0) =~= Seq::<LevelText>::empty());
            }
            while i < n
                invariant
                    i <= n,
                    n == raw@.len(),
                    texts == level_texts(raw@),
                    field_levels(levels_view(*f)) == levels_spec(texts),
                    levels_spec(texts.take(i as int)) == Ok::<Seq<PriceLevel>, DecodeError>(out@),
                decreases n - i,
            {
                proof {
                    assert(texts.take(i + 1).drop_last() =~= texts.take(i as int));
                    assert(texts.take(i + 1).last() == raw@[i as int]@);
                }
                let price: Decimal = match Decimal::from_str(raw[i].price.as_str()) {
                    Ok(p) => p,
                    Err(e) => {
                        proof {
                            lemma_levels_fault(texts, i + 1);
                        }
                        return Err(e);
                    },
                };
                let size: Decimal = match Decimal::from_str(raw[i].size.as_str()) {
                    Ok(q) => q,
                    Err(e) => {
                        proof {
                            lemma_levels_fault(texts, i + 1);
                        }
                        return Err(e);
                    },
                };
                out.push(PriceLevel { price, size });
                i += 1;
            }
            proof {
                assert(texts.take(n as int) =~= texts);
            }
            Ok(out)
        },
    }
}

/// A fault in a prefix of a list of raw levels is the fault of the list.
proof fn lemma_levels_fault(raw: Seq<LevelText>, i: int)
    requires
        0 <= i <= raw.len(),
        levels_spec(raw.take(i)) is Err,
    ensures
        levels_spec(raw) == levels_spec(raw.take(i)),
    decreases raw.len() - i,
{
    if i < raw.len() {
        assert(raw.take(i + 1).drop_last() =~= raw.take(i));
        lemma_levels_fault(raw, i + 1);
    } else {
        assert(raw.take(i) =~= raw);
    }
}

/// Turns the frames of the feed into typed messages. It keeps nothing from
/// one frame to the next.
#[derive(Clone, Copy, Debug)]
pub struct Decoder {}

impl Decoder {
    pub fn new() -> (r: Decoder) {
        Decoder {  }
    }

    /// Decodes one frame from its bytes: the frame is cut into its fields,
    /// and the fields are decoded. The first fault met on the way is
    /// returned; a frame that gives one is dropped by the caller, and the
    /// next is decoded as if nothing had happened.
    pub fn decode_bytes(&self, raw: &[u8]) -> (r: Result<StreamMessage, DecodeError>)
        ensures
            r is Ok <==> decode_bytes_spec(raw@) is Ok,
            r is Ok ==> r->Ok_0@ == decode_bytes_spec(raw@)->Ok_0,
            r is Err ==> r->Err_0 == decode_bytes_spec(raw@)->Err_0,
    {
        match parse_frame(raw) {
            Err(e) => Err(e),
            Ok(frame) => self.decode(&frame),
        }
    }

    /// Decodes one frame that was cut into its fields: see [`decode_spec`].
    pub fn decode(&self, frame: &RawFrame) -> (r: Result<StreamMessage, DecodeError>)
        ensures
            r is Ok <==> decode_spec(frame@) is Ok,
            r is Ok ==> r->Ok_0@ == decode_spec(frame@)->Ok_0,
            r is Err ==> r->Err_0 == decode_spec(frame@)->Err_0,
    {
        let kind: &String = match &frame.event_type {
            None => {
                return Err(DecodeError::MissingField);
            },
            Some(kind) => kind,
        };
        if same_text(kind.as_str(), "delta") {
            decode_delta(frame)
        } else if same_text(kind.as_str(), "snapshot") {
            decode_snapshot(frame)
        } else if same_text(kind.as_str(), "trade") {
            decode_trade(frame)
        } else if same_text(kind.as_str(), "tick_size_change") {
            decode_tick(frame)
        } else if same_text(kind.as_str(), "heartbeat") {
            Ok(StreamMessage::Heartbeat)
        } else if same_text(kind.as_str(), "error") {
            match &frame.message {
                None => Err(DecodeError::MissingField),
                Some(text) => Ok(StreamMessage::Error(text.clone())),
            }
        } else {
            Ok(StreamMessage::Unknown)
        }
    }
}

fn decode_delta(frame: &RawFrame) -> (r: Result<StreamMessage, DecodeError>)
    ensures
        r is Ok <==> delta_spec(frame@) is Ok,
        r is Ok ==> r->Ok_0@ == delta_spec(frame@)->Ok_0,
        r is Err ==> r->Err_0 == delta_spec(frame@)->Err_0,
{
    let token_id: String = match text_field(&frame.asset_id) {
        Ok(v) => v,
        Err(e) => {
            return Err(e);
        },
    };
    let side: Side = match side_field(&frame.side) {
        Ok(v) => v,
        Err(e) => {
            return Err(e);
        },
    };
    let price: Decimal = match decimal_field(&frame.price) {
        Ok(v) => v,
        Err(e) => {
            return Err(e);
        },
    };
    let size: Decimal = match decimal_field(&frame.size) {
        Ok(v) => v,
        Err(e) => {
            return Err(e);
        },
    };
    let sequence: u64 = match integer_field(&frame.sequence) {
        Ok(v) => v,
        Err(e) => {
            return Err(e);
        },
    };
    let timestamp: u64 = match integer_field(&frame.timestamp) {
        Ok(v) => v,
        Err(e) => {
            return Err(e);
        },
    };
    Ok(StreamMessage::OrderDelta(OrderDelta { token_id, timestamp, side, price, size, sequence }))
}

fn decode_trade(frame: &RawFrame) -> (r: Result<StreamMessage, DecodeError>)
    ensures
        r is Ok <==> trade_spec(frame@) is Ok,
        r is Ok ==> r->Ok_0@ == trade_spec(frame@)->Ok_0,
        r is Err ==> r->Err_0 == trade_spec(frame@)->Err_0,
{
    let token_id: String = match text_field(&frame.asset_id) {
        Ok(v) => v,
        Err(e) => {
            return Err(e);
        },
    };
    let side: Side = match side_field(&frame.side) {
        Ok(v) => v,
        Err(e) => {
            return Err(e);
        },
    };
    let price: Decimal = match decimal_field(&frame.price) {
        Ok(v) => v,
        Err(e) => {
            return Err(e);
        },
    };
    let size: Decimal = match decimal_field(&frame.size) {
        Ok(v) => v,
        Err(e) => {
            return Err(e);
        },
    };
    let timestamp: u64 = match integer_field(&frame.timestamp) {
        Ok(v) => v,
        Err(e) => {
            return Err(e);
        },
    };
    Ok(StreamMessage::Trade(Trade { token_id, side, price, size, timestamp }))
}

fn decode_tick(frame: &RawFrame) -> (r: Result<StreamMessage, DecodeError>)
    ensures
        r is Ok <==> tick_spec(frame@) is Ok,
        r is Ok ==> r->Ok_0@ == tick_spec(frame@)->Ok_0,
        r is Err ==> r->Err_0 == tick_spec(frame@)->Err_0,
{
    let token_id: String = match text_field(&frame.asset_id) {
        Ok(v) => v,
        Err(e) => {
            return Err(e);
        },
    };
    let old_tick_size: Decimal = match decimal_field(&frame.old_tick_size) {
        Ok(v) => v,
        Err(e) => {
            return Err(e);
        },
    };
    let new_tick_size: Decimal = match decimal_field(&frame.new_tick_size) {
        Ok(v) => v,
        Err(e) => {
            return Err(e);
        },
    };
    let timestamp: u64 = match integer_field(&frame.timestamp) {
        Ok(v) => v,
        Err(e) => {
            return Err(e);
        },
    };
    Ok(
        StreamMessage::TickSizeChange(
            TickSizeChange { token_id, old_tick_size, new_tick_size, timestamp },
        ),
    )
}

fn decode_snapshot(frame: &RawFrame) -> (r: Result<StreamMessage, DecodeError>)
    ensures
        r is Ok <==> snapshot_spec(frame@) is Ok,
        r is Ok ==> r->Ok_0@ == snapshot_spec(frame@)->Ok_0,
        r is Err ==> r->Err_0 == snapshot_spec(frame@)->Err_0,
{
    let token_id: String = match text_field(&frame.asset_id) {
        Ok(v) => v,
        Err(e) => {
            return Err(e);
        },
    };
    let bids: Vec<PriceLevel> = match levels_field(&frame.bids) {
        Ok(v) => v,
        Err(e) => {
            return Err(e);
        },
    };
    let asks: Vec<PriceLevel> = match levels_field(&frame.asks) {
        Ok(v) => v,
        Err(e) => {
            return Err(e);
        },
    };
    let sequence: u64 = match integer_field(&frame.sequence) {
        Ok(v) => v,
        Err(e) => {
            return Err(e);
        },
    };
    let timestamp: u64 = match integer_field(&frame.timestamp) {
        Ok(v) => v,
        Err(e) => {
            return Err(e);
        },
    };
    Ok(StreamMessage::BookSnapshot(BookSnapshot { token_id, bids, asks, sequence, timestamp }))
}

} // verus!
