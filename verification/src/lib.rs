//! A connectivity engine for a real-time exchange order book: it rebuilds
//! per-instrument limit-order books from a sequenced feed, detects and
//! recovers from gaps, and simulates the execution of an order against a
//! snapshot of a book.

use vstd::prelude::*;

pub mod backoff;
pub mod book;
pub mod buffer_pool;
pub mod client;
pub mod connection_manager;
pub mod decimal;
pub mod decode;
pub mod dns_cache;
pub mod engine;
pub mod errors;
pub mod fill;
pub mod frame;
pub mod ladder;
pub mod manager;
pub mod seqs;
pub mod stream;
pub mod table;
pub mod text;
pub mod types;

pub use crate::book::{OrderBook as OrderBookImpl, OrderBookSummary};
pub use crate::client::{
    ClobClient, OrderArgs, DEFAULT_BASE_URL, DEFAULT_CHAIN_ID, DEFAULT_MAX_RETRIES,
    DEFAULT_RATE_LIMIT_RPS, DEFAULT_TIMEOUT_SECS,
};
pub use crate::decimal::Decimal;
pub use crate::decode::Decoder;
pub use crate::errors::{DecodeError, PolyfillError};
pub use crate::fill::{FillEngine, FillResult};
pub use crate::manager::OrderBookManager;
pub use crate::stream::StreamManager;
pub use crate::types::{OrderDelta, Side, StreamMessage};
