use crate::connection_manager::RetryPolicy;
use crate::decimal::Decimal;
use crate::types::Side;
use vstd::prelude::*;

verus! {

/// Where the request endpoint is, unless told otherwise.
pub const DEFAULT_BASE_URL: &'static str = "https://clob.polymarket.com";

/// Chain id used when a client is built without an explicit one.
pub const DEFAULT_CHAIN_ID: u64 = 137;

/// Request timeout, in seconds, used when none is configured.
pub const DEFAULT_TIMEOUT_SECS: u64 = 30;

/// Number of retries granted to a transient failure when none is configured.
pub const DEFAULT_MAX_RETRIES: u32 = 3;

/// Outbound request rate, per second, used when none is configured.
pub const DEFAULT_RATE_LIMIT_RPS: u32 = 100;

/// First delay between retries, in milliseconds.
pub const DEFAULT_RETRY_DELAY_MS: u64 = 100;

/// Longest delay between retries, in milliseconds.
pub const DEFAULT_RETRY_CAP_MS: u64 = 10_000;

/// What a client of the request endpoint is set up with: where the endpoint
/// is and how calls to it are paced. The calls themselves are made by the
/// transport that the caller brings.
#[derive(Clone, Debug)]
pub struct ClobClient {
    base_url: String,
    chain_id: u64,
    timeout_secs: u64,
    max_retries: u32,
    rate_limit_rps: u32,
}

impl ClobClient {
    pub closed spec fn spec_base_url(&self) -> Seq<char> {
        self.base_url@
    }

    pub closed spec fn spec_chain_id(&self) -> u64 {
        self.chain_id
    }

    pub closed spec fn spec_timeout_secs(&self) -> u64 {
        self.timeout_secs
    }

    pub closed spec fn spec_max_retries(&self) -> u32 {
        self.max_retries
    }

    pub closed spec fn spec_rate_limit_rps(&self) -> u32 {
        self.rate_limit_rps
    }

    /// A client of the endpoint at `host`, with the default pacing.
    pub fn new(host: &str) -> (r: ClobClient)
        ensures
            r.spec_base_url() == host@,
            r.spec_chain_id() == DEFAULT_CHAIN_ID,
            r.spec_timeout_secs() == DEFAULT_TIMEOUT_SECS,
            r.spec_max_retries() == DEFAULT_MAX_RETRIES,
            r.spec_rate_limit_rps() == DEFAULT_RATE_LIMIT_RPS,
    {
        ClobClient {
            base_url: host.to_owned(),
            chain_id: DEFAULT_CHAIN_ID,
            timeout_secs: DEFAULT_TIMEOUT_SECS,
            max_retries: DEFAULT_MAX_RETRIES,
            rate_limit_rps: DEFAULT_RATE_LIMIT_RPS,
        }
    }

    /// The same client for another chain.
    pub fn with_chain_id(self, chain_id: u64) -> (r: ClobClient)
        ensures
            r.spec_base_url() == self.spec_base_url(),
            r.spec_chain_id() == chain_id,
            r.spec_timeout_secs() == self.spec_timeout_secs(),
            r.spec_max_retries() == self.spec_max_retries(),
            r.spec_rate_limit_rps() == self.spec_rate_limit_rps(),
    {
        ClobClient {
            base_url: self.base_url,
            chain_id,
            timeout_secs: self.timeout_secs,
            max_retries: self.max_retries,
            rate_limit_rps: self.rate_limit_rps,
        }
    }

    pub fn base_url(&self) -> (r: &String)
        ensures
            r@ == self.spec_base_url(),
    {
        &self.base_url
    }

    #[verifier::when_used_as_spec(spec_chain_id)]
    pub fn chain_id(&self) -> (r: u64)
        ensures
            r == self.spec_chain_id(),
    {
        self.chain_id
    }

    #[verifier::when_used_as_spec(spec_timeout_secs)]
    pub fn timeout_secs(&self) -> (r: u64)
        ensures
            r == self.spec_timeout_secs(),
    {
        self.timeout_secs
    }

    #[verifier::when_used_as_spec(spec_rate_limit_rps)]
    pub fn rate_limit_rps(&self) -> (r: u32)
        ensures
            r == self.spec_rate_limit_rps(),
    {
        self.rate_limit_rps
    }

    /// The retry policy that the client's calls go by.
    pub fn retry_policy(&self) -> (r: RetryPolicy)
        ensures
            r == (RetryPolicy {
                max_retries: self.spec_max_retries(),
                base_delay_ms: DEFAULT_RETRY_DELAY_MS,
                max_delay_ms: DEFAULT_RETRY_CAP_MS,
            }),
            r.valid(),
    {
        RetryPolicy {
            max_retries: self.max_retries,
            base_delay_ms: DEFAULT_RETRY_DELAY_MS,
            max_delay_ms: DEFAULT_RETRY_CAP_MS,
        }
    }
}

/// What an order says: which instrument, at what price, how much, and on
/// which side.
#[derive(Clone, Debug)]
pub struct OrderArgs {
    pub token_id: String,
    pub price: Decimal,
    pub size: Decimal,
    pub side: Side,
}

impl OrderArgs {
    pub fn new(token_id: &str, price: Decimal, size: Decimal, side: Side) -> (r: OrderArgs)
        ensures
            r.token_id@ == token_id@,
            r.price == price,
            r.size == size,
            r.side == side,
    {
        OrderArgs { token_id: token_id.to_owned(), price, size, side }
    }
}

impl Default for OrderArgs {
    /// An order for nothing: no instrument, price and size nought, to buy.
    fn default() -> (r: OrderArgs)
        ensures
            r.token_id@ == Seq::<char>::empty(),
            r.price.units == 0,
            r.size.units == 0,
            r.side == Side::BUY,
    {
        OrderArgs {
            token_id: String::new(),
            price: Decimal { units: 0 },
            size: Decimal { units: 0 },
            side: Side::BUY,
        }
    }
}

} // verus!
