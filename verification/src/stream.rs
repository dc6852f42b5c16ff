use crate::backoff::{doubled, doubled_delay, lemma_doubled_monotone};
use crate::errors::PolyfillError;
use crate::text::{copy_names, has_name, names};
use vstd::prelude::*;

verus! {

/// Where a streaming connection stands in its life.
#[derive(Clone, Copy, Debug, PartialEq, Eq, Structural)]
pub enum ConnectionState {
    Disconnected,
    Connecting,
    Subscribing,
    Streaming,
    Reconnecting,
    /// Torn down. Nothing brings the connection back.
    Closed,
}

/// What can happen to a streaming connection.
#[derive(Clone, Copy, Debug, PartialEq, Eq, Structural)]
pub enum StreamEvent {
    /// The owner wants the connection up.
    Start,
    /// The transport is established.
    Connected,
    /// The feed acknowledged the subscription.
    Subscribed,
    /// A frame arrived.
    Frame,
    /// Time has passed.
    Tick,
    /// The transport failed.
    Failed,
    /// The backoff delay is over.
    BackoffElapsed,
    /// The owner tears the connection down.
    Close,
}

/// What the driver of a connection has to do next.
#[derive(Clone, Copy, Debug, PartialEq, Eq, Structural)]
pub enum StreamAction {
    Nothing,
    /// Open the transport.
    Connect,
    /// Send the connection's subscription set.
    SendSubscription,
    /// Send a heartbeat.
    SendHeartbeat,
    /// Drop the transport, take the connection's instruments for out of
    /// sync, and report `BackoffElapsed` after the delay, in milliseconds.
    Backoff { delay_ms: u64 },
    /// Drop the transport for good.
    Release,
}

/// The kinds of data a subscription can ask for.
#[derive(Clone, Copy, Debug, PartialEq, Eq, Structural)]
pub enum ChannelType {
    Book,
    Trades,
    Ticks,
}

/// Timing of heartbeats and of reconnection attempts, in milliseconds.
#[derive(Clone, Copy, Debug, PartialEq, Eq, Structural)]
pub struct StreamConfig {
    pub heartbeat_interval_ms: u64,
    /// A connection that was silent for more than this many heartbeat
    /// intervals is dead.
    pub grace_multiple: u64,
    pub initial_backoff_ms: u64,
    pub max_backoff_ms: u64,
}

/// The state of one connection's machine.
#[derive(Clone, Copy, Debug, PartialEq, Eq, Structural)]
pub struct ConnectionStatus {
    pub state: ConnectionState,
    /// Failures since the connection last streamed.
    pub attempt: u32,
    /// When the last frame arrived.
    pub last_received: u64,
    /// When the last heartbeat was sent.
    pub last_sent: u64,
}

/// Time from `then` to `now`, nought where the clock went back.
pub open spec fn elapsed(now: u64, then: u64) -> nat {
    if now >= then {
        (now - then) as nat
    } else {
        0
    }
}

impl StreamConfig {
    /// Every interval is positive and the first backoff is within the cap.
    pub open spec fn valid(self) -> bool {
        &&& self.heartbeat_interval_ms > 0
        &&& self.grace_multiple > 0
        &&& 0 < self.initial_backoff_ms <= self.max_backoff_ms
    }

    /// The delay before attempt number `attempt`, without jitter: the first
    /// delay doubled for each failure so far, capped.
    pub open spec fn backoff_base(self, attempt: u32) -> nat {
        doubled(self.initial_backoff_ms, self.max_backoff_ms, attempt)
    }

    /// The delay before attempt number `attempt`: the base, shortened by up
    /// to half of it as `jitter`, a number drawn by the caller, decides.
    pub open spec fn backoff_delay(self, attempt: u32, jitter: u64) -> nat {
        (self.backoff_base(attempt) - jitter as nat % (self.backoff_base(attempt) / 2 + 1)) as nat
    }

    /// A connection last heard of at `last_received` is dead at `now`.
    pub open spec fn is_dead(self, now: u64, last_received: u64) -> bool {
        elapsed(now, last_received) > self.heartbeat_interval_ms * self.grace_multiple
    }

    /// A heartbeat is due at `now` when the last one went out at `last_sent`.
    pub open spec fn heartbeat_due(self, now: u64, last_sent: u64) -> bool {
        elapsed(now, last_sent) >= self.heartbeat_interval_ms
    }

    /// A configuration, or the configuration fault where an interval is
    /// nought or the first backoff exceeds the cap.
    pub fn new(
        heartbeat_interval_ms: u64,
        grace_multiple: u64,
        initial_backoff_ms: u64,
        max_backoff_ms: u64,
    ) -> (r: Result<StreamConfig, PolyfillError>)
        ensures
            r is Ok <==> (StreamConfig {
                heartbeat_interval_ms,
                grace_multiple,
                initial_backoff_ms,
                max_backoff_ms,
            }).valid(),
            r is Ok ==> r->Ok_0 == (StreamConfig {
                heartbeat_interval_ms,
                grace_multiple,
                initial_backoff_ms,
                max_backoff_ms,
            }),
            r is Err ==> r->Err_0 == PolyfillError::Configuration,
    {
        if heartbeat_interval_ms == 0 || grace_multiple == 0 || initial_backoff_ms == 0
            || initial_backoff_ms > max_backoff_ms {
            Err(PolyfillError::Configuration)
        } else {
            Ok(StreamConfig { heartbeat_interval_ms, grace_multiple, initial_backoff_ms, max_backoff_ms })
        }
    }

    /// Computes [`StreamConfig::backoff_base`].
    pub fn base_delay(&self, attempt: u32) -> (r: u64)
        requires
            self.valid(),
        ensures
            r == self.backoff_base(attempt),
            self.initial_backoff_ms <= r <= self.max_backoff_ms,
    {
        doubled_delay(self.initial_backoff_ms, self.max_backoff_ms, attempt)
    }

    /// Computes [`StreamConfig::backoff_delay`].
    pub fn delay(&self, attempt: u32, jitter: u64) -> (r: u64)
        requires
            self.valid(),
        ensures
            r == self.backoff_delay(attempt, jitter),
            r <= self.max_backoff_ms,
            r > 0,
    {
        let base: u64 = self.base_delay(attempt);
        let span: u64 = base / 2 + 1;
        base - jitter % span
    }

    /// Computes [`StreamConfig::is_dead`].
    pub fn dead(&self, now: u64, last_received: u64) -> (r: bool)
        ensures
            r == self.is_dead(now, last_received),
    {
        let silent: u64 = if now >= last_received {
            now - last_received
        } else {
            0
        };
        match self.heartbeat_interval_ms.checked_mul(self.grace_multiple) {
            Some(grace) => silent > grace,
            None => {
                proof {
                    assert(self.heartbeat_interval_ms * self.grace_multiple > u64::MAX);
                }
                false
            },
        }
    }

    /// Computes [`StreamConfig::heartbeat_due`].
    pub fn due(&self, now: u64, last_sent: u64) -> (r: bool)
        ensures
            r == self.heartbeat_due(now, last_sent),
    {
        let quiet: u64 = if now >= last_sent {
            now - last_sent
        } else {
            0
        };
        quiet >= self.heartbeat_interval_ms
    }
}

/// Backoff never exceeds the cap, never falls below half the base, and its
/// base never shrinks from one failure to the next.
pub proof fn lemma_backoff_bounds(config: StreamConfig, attempt: u32, jitter: u64)
    requires
        config.valid(),
    ensures
        config.backoff_delay(attempt, jitter) <= config.backoff_base(attempt),
        config.backoff_base(attempt) <= config.max_backoff_ms,
        config.backoff_delay(attempt, jitter) >= config.backoff_base(attempt) - config.backoff_base(
            attempt,
        ) / 2,
        attempt < u32::MAX ==> config.backoff_base(attempt) <= config.backoff_base(
            (attempt + 1) as u32,
        ),
{
    if attempt < u32::MAX {
        lemma_doubled_monotone(config.initial_backoff_ms, config.max_backoff_ms, attempt);
    }
}

impl ConnectionStatus {
    /// A connection that was never started.
    pub open spec fn initial() -> ConnectionStatus {
        ConnectionStatus {
            state: ConnectionState::Disconnected,
            attempt: 0,
            last_received: 0,
            last_sent: 0,
        }
    }

    /// The transport is in use: it is being set up or carries the stream.
    pub open spec fn is_up(self) -> bool {
        self.state is Connecting || self.state is Subscribing || self.state is Streaming
    }

    /// The connection after a failure: it waits for its next attempt.
    pub open spec fn failed(self) -> ConnectionStatus {
        ConnectionStatus {
            state: ConnectionState::Reconnecting,
            attempt: if self.attempt < u32::MAX {
                (self.attempt + 1) as u32
            } else {
                self.attempt
            },
            ..self
        }
    }

    /// The connection after `event` happened to it at `now`.
    pub open spec fn next(self, config: StreamConfig, event: StreamEvent, now: u64) -> ConnectionStatus {
        if self.state is Closed {
            self
        } else {
            match event {
                StreamEvent::Close => ConnectionStatus { state: ConnectionState::Closed, ..self },
                StreamEvent::Start => if self.state is Disconnected {
                    ConnectionStatus { state: ConnectionState::Connecting, ..self }
                } else {
                    self
                },
                StreamEvent::Connected => if self.state is Connecting {
                    ConnectionStatus {
                        state: ConnectionState::Subscribing,
                        last_received: now,
                        last_sent: now,
                        ..self
                    }
                } else {
                    self
                },
                StreamEvent::Subscribed => if self.state is Subscribing {
                    ConnectionStatus {
                        state: ConnectionState::Streaming,
                        attempt: 0,
                        last_received: now,
                        ..self
                    }
                } else {
                    self
                },
                StreamEvent::Frame => if self.state is Subscribing || self.state is Streaming {
                    ConnectionStatus { last_received: now, ..self }
                } else {
                    self
                },
                StreamEvent::Tick => if self.state is Subscribing || self.state is Streaming {
                    if config.is_dead(now, self.last_received) {
                        self.failed()
                    } else if self.state is Streaming && config.heartbeat_due(now, self.last_sent) {
                        ConnectionStatus { last_sent: now, ..self }
                    } else {
                        self
                    }
                } else {
                    self
                },
                StreamEvent::Failed => if self.is_up() {
                    self.failed()
                } else {
                    self
                },
                StreamEvent::BackoffElapsed => if self.state is Reconnecting {
                    ConnectionStatus { state: ConnectionState::Connecting, ..self }
                } else {
                    self
                },
            }
        }
    }

    /// What the driver has to do when `event` happens at `now`; `jitter` is
    /// a number that the caller drew for the case of a backoff.
    pub open spec fn action(
        self,
        config: StreamConfig,
        event: StreamEvent,
        now: u64,
        jitter: u64,
    ) -> StreamAction {
        let backoff = StreamAction::Backoff {
            delay_ms: config.backoff_delay(self.attempt, jitter) as u64,
        };
        if self.state is Closed {
            StreamAction::Nothing
        } else {
            match event {
                StreamEvent::Close => StreamAction::Release,
                StreamEvent::Start => if self.state is Disconnected {
                    StreamAction::Connect
                } else {
                    StreamAction::Nothing
                },
                StreamEvent::Connected => if self.state is Connecting {
                    StreamAction::SendSubscription
                } else {
                    StreamAction::Nothing
                },
                StreamEvent::Subscribed => StreamAction::Nothing,
                StreamEvent::Frame => StreamAction::Nothing,
                StreamEvent::Tick => if self.state is Subscribing || self.state is Streaming {
                    if config.is_dead(now, self.last_received) {
                        backoff
                    } else if self.state is Streaming && config.heartbeat_due(now, self.last_sent) {
                        StreamAction::SendHeartbeat
                    } else {
                        StreamAction::Nothing
                    }
                } else {
                    StreamAction::Nothing
                },
                StreamEvent::Failed => if self.is_up() {
                    backoff
                } else {
                    StreamAction::Nothing
                },
                StreamEvent::BackoffElapsed => if self.state is Reconnecting {
                    StreamAction::Connect
                } else {
                    StreamAction::Nothing
                },
            }
        }
    }

    /// The event interrupts the stream: what arrives after it cannot be
    /// taken to continue what came before.
    pub open spec fn interrupts(self, config: StreamConfig, event: StreamEvent, now: u64) -> bool {
        self.is_up() && self.next(config, event, now).state is Reconnecting
    }

    /// A connection that was never started.
    pub fn new() -> (r: ConnectionStatus)
        ensures
            r == ConnectionStatus::initial(),
    {
        ConnectionStatus {
            state: ConnectionState::Disconnected,
            attempt: 0,
            last_received: 0,
            last_sent: 0,
        }
    }

    fn fail(&mut self, config: &StreamConfig, jitter: u64) -> (r: StreamAction)
        requires
            config.valid(),
            old(self).is_up(),
        ensures
            *final(self) == old(self).failed(),
            r == (StreamAction::Backoff {
                delay_ms: config.backoff_delay(old(self).attempt, jitter) as u64,
            }),
    {
        let delay_ms: u64 = config.delay(self.attempt, jitter);
        self.state = ConnectionState::Reconnecting;
        if self.attempt < u32::MAX {
            self.attempt = self.attempt + 1;
        }
        StreamAction::Backoff { delay_ms }
    }

    /// Takes one event: moves the connection on and says what the driver
    /// has to do.
    pub fn on_event(&mut self, config: &StreamConfig, event: StreamEvent, now: u64, jitter: u64) -> (r:
        StreamAction)
        requires
            config.valid(),
        ensures
            *final(self) == old(self).next(*config, event, now),
            r == old(self).action(*config, event, now, jitter),
    {
        match self.state {
            ConnectionState::Closed => {
                return StreamAction::Nothing;
            },
            _ => {},
        }
        match event {
            StreamEvent::Close => {
                self.state = ConnectionState::Closed;
                StreamAction::Release
            },
            StreamEvent::Start => match self.state {
                ConnectionState::Disconnected => {
                    self.state = ConnectionState::Connecting;
                    StreamAction::Connect
                },
                _ => StreamAction::Nothing,
            },
            StreamEvent::Connected => match self.state {
                ConnectionState::Connecting => {
                    self.state = ConnectionState::Subscribing;
                    self.last_received = now;
                    self.last_sent = now;
                    StreamAction::SendSubscription
                },
                _ => StreamAction::Nothing,
            },
            StreamEvent::Subscribed => match self.state {
                ConnectionState::Subscribing => {
                    self.state = ConnectionState::Streaming;
                    self.attempt = 0;
                    self.last_received = now;
                    StreamAction::Nothing
                },
                _ => StreamAction::Nothing,
            },
            StreamEvent::Frame => match self.state {
                ConnectionState::Subscribing => {
                    self.last_received = now;
                    StreamAction::Nothing
                },
                ConnectionState::Streaming => {
                    self.last_received = now;
                    StreamAction::Nothing
                },
                _ => StreamAction::Nothing,
            },
            StreamEvent::Tick => match self.state {
                ConnectionState::Subscribing => {
                    if config.dead(now, self.last_received) {
                        self.fail(config, jitter)
                    } else {
                        StreamAction::Nothing
                    }
                },
                ConnectionState::Streaming => {
                    if config.dead(now, self.last_received) {
                        self.fail(config, jitter)
                    } else if config.due(now, self.last_sent) {
                        self.last_sent = now;
                        StreamAction::SendHeartbeat
                    } else {
                        StreamAction::Nothing
                    }
                },
                _ => StreamAction::Nothing,
            },
            StreamEvent::Failed => match self.state {
                ConnectionState::Connecting => self.fail(config, jitter),
                ConnectionState::Subscribing => self.fail(config, jitter),
                ConnectionState::Streaming => self.fail(config, jitter),
                _ => StreamAction::Nothing,
            },
            StreamEvent::BackoffElapsed => match self.state {
                ConnectionState::Reconnecting => {
                    self.state = ConnectionState::Connecting;
                    StreamAction::Connect
                },
                _ => StreamAction::Nothing,
            },
        }
    }
}

/// One streaming connection: its machine and the subscription set it
/// carries, which is sent again after every reconnect.
#[derive(Debug)]
pub struct StreamConnection {
    status: ConnectionStatus,
    token_ids: Vec<String>,
    channels: Vec<ChannelType>,
}

/// What an event on a connection asks of the driver.
#[derive(Debug)]
pub struct StreamOutput {
    pub action: StreamAction,
    /// The instruments whose books have to be taken for out of sync.
    pub out_of_sync: Vec<String>,
}

/// Owner of the streaming connections. Each subscription gets a connection
/// of its own; the handle of a subscription names it.
#[derive(Debug)]
pub struct StreamManager {
    config: StreamConfig,
    connections: Vec<StreamConnection>,
}

fn has_channel(channels: &Vec<ChannelType>, channel: ChannelType) -> (r: bool)
    ensures
        r == channels@.contains(channel),
{
    let n: usize = channels.len();
    let mut i: usize = 0;
    while i < n
        invariant
            i <= n,
            n == channels@.len(),
            forall|j: int| 0 <= j < i ==> channels@[j] != channel,
        decreases n - i,
    {
        if channels[i] == channel {
            return true;
        }
        i += 1;
    }
    false
}

impl StreamManager {
    /// The subscription of `handle` is to get what comes for `token` on
    /// `channel`: it asked for both, and was not torn down.
    pub open spec fn wants(&self, handle: int, token: Seq<char>, channel: ChannelType) -> bool {
        &&& self.instruments(handle).contains(token)
        &&& self.channels(handle).contains(channel)
        &&& !(self.status(handle).state is Closed)
    }

    /// The subscriptions that are to get what comes for an instrument on a
    /// channel, each once, in the order in which they were made.
    pub fn interested(&self, token_id: &str, channel: ChannelType) -> (r: Vec<usize>)
        ensures
            forall|i: int|
                0 <= i < r@.len() ==> (#[trigger] r@[i]) < self.count() && self.wants(
                    r@[i] as int,
                    token_id@,
                    channel,
                ),
            forall|h: int|
                0 <= h < self.count() && self.wants(h, token_id@, channel) ==> r@.contains(
                    h as usize,
                ),
            forall|i: int, j: int| 0 <= i < j < r@.len() ==> r@[i] < r@[j],
    {
        let mut out: Vec<usize> = Vec::new();
        let n: usize = self.connections.len();
        let mut h: usize = 0;
        while h < n
            invariant
                h <= n,
                n == self.connections@.len(),
                forall|i: int|
                    0 <= i < out@.len() ==> (#[trigger] out@[i]) < h && self.wants(
                        out@[i] as int,
                        token_id@,
                        channel,
                    ),
                forall|k: int|
                    0 <= k < h && self.wants(k, token_id@, channel) ==> out@.contains(k as usize),
                forall|i: int, j: int| 0 <= i < j < out@.len() ==> out@[i] < out@[j],
            decreases n - h,
        {
            let connection: &StreamConnection = &self.connections[h];
            let open: bool = match connection.status.state {
                ConnectionState::Closed => false,
                _ => true,
            };
            if open && has_name(&connection.token_ids, token_id) && has_channel(
                &connection.channels,
                channel,
            ) {
                let ghost before = out@;
                out.push(h);
                proof {
                    assert forall|k: int|
                        0 <= k < h + 1 && self.wants(k, token_id@, channel) implies out@.contains(
                        k as usize,
                    ) by {
                        if k < h {
                            let i = choose|i: int| 0 <= i < before.len() && before[i] == k as usize;
                            assert(out@[i] == k as usize);
                        } else {
                            assert(out@[before.len() as int] == h);
                        }
                    }
                }
            }
            h += 1;
        }
        out
    }

    /// The configuration that all connections share.
    pub closed spec fn config(&self) -> StreamConfig {
        self.config
    }

    /// The number of subscriptions made so far.
    pub closed spec fn count(&self) -> nat {
        self.connections@.len()
    }

    /// The machine of the connection that `handle` names.
    pub closed spec fn status(&self, handle: int) -> ConnectionStatus {
        self.connections@[handle].status
    }

    /// The instruments that the connection of `handle` carries.
    pub closed spec fn instruments(&self, handle: int) -> Seq<Seq<char>> {
        names(self.connections@[handle].token_ids@)
    }

    /// The channels that the connection of `handle` carries.
    pub closed spec fn channels(&self, handle: int) -> Seq<ChannelType> {
        self.connections@[handle].channels@
    }

    /// The manager's invariant: its configuration is valid.
    pub closed spec fn wf(&self) -> bool {
        self.config.valid()
    }

    /// A manager without connections, or the configuration fault where the
    /// configuration is not valid.
    pub fn new(config: StreamConfig) -> (r: Result<StreamManager, PolyfillError>)
        ensures
            r is Ok <==> config.valid(),
            r is Ok ==> r->Ok_0.wf() && r->Ok_0.config() == config && r->Ok_0.count() == 0,
            r is Err ==> r->Err_0 == PolyfillError::Configuration,
    {
        if config.heartbeat_interval_ms == 0 || config.grace_multiple == 0
            || config.initial_backoff_ms == 0 || config.initial_backoff_ms
            > config.max_backoff_ms {
            Err(PolyfillError::Configuration)
        } else {
            Ok(StreamManager { config, connections: Vec::new() })
        }
    }

    /// Makes a subscription to the given channels of the given instruments.
    /// It gets a connection of its own, not yet started; the handle names
    /// it from now on. No other connection changes.
    pub fn subscribe(&mut self, token_ids: Vec<String>, channels: Vec<ChannelType>) -> (handle:
        usize)
        requires
            old(self).wf(),
        ensures
            final(self).wf(),
            final(self).config() == old(self).config(),
            handle == old(self).count(),
            final(self).count() == old(self).count() + 1,
            final(self).status(handle as int) == ConnectionStatus::initial(),
            final(self).instruments(handle as int) == names(token_ids@),
            final(self).channels(handle as int) == channels@,
            forall|h: int|
                0 <= h < old(self).count() ==> final(self).status(h) == old(self).status(h)
                    && final(self).instruments(h) == old(self).instruments(h) && final(self).channels(h) == old(self).channels(h),
    {
        let handle: usize = self.connections.len();
        self.connections.push(
            StreamConnection { status: ConnectionStatus::new(), token_ids, channels },
        );
        handle
    }

    /// The state of the connection that `handle` names, if it names one.
    pub fn state(&self, handle: usize) -> (r: Option<ConnectionState>)
        ensures
            r is Some <==> handle < self.count(),
            r is Some ==> r->Some_0 == self.status(handle as int).state,
    {
        if handle < self.connections.len() {
            Some(self.connections[handle].status.state)
        } else {
            None
        }
    }

    /// The instruments of the connection that `handle` names, if it names
    /// one: what is to be sent when the action is `SendSubscription`.
    pub fn subscription(&self, handle: usize) -> (r: Option<Vec<String>>)
        ensures
            r is Some <==> handle < self.count(),
            r is Some ==> names(r->Some_0@) == self.instruments(handle as int),
    {
        if handle < self.connections.len() {
            Some(copy_names(&self.connections[handle].token_ids))
        } else {
            None
        }
    }

    /// Takes an event for the connection that `handle` names: moves its
    /// machine on, and says what the driver has to do. Where the event
    /// interrupts the stream, the output lists the instruments of that
    /// connection, and of no other, for the books to be taken out of sync.
    /// An event for a handle that names nothing changes nothing.
    pub fn on_event(&mut self, handle: usize, event: StreamEvent, now: u64, jitter: u64) -> (r:
        StreamOutput)
        requires
            old(self).wf(),
        ensures
            final(self).wf(),
            final(self).config() == old(self).config(),
            final(self).count() == old(self).count(),
            forall|h: int|
                0 <= h < old(self).count() ==> final(self).instruments(h) == old(self).instruments(h) && final(self).channels(h) == old(self).channels(h),
            forall|h: int|
                0 <= h < old(self).count() && h != handle ==> final(self).status(h) == old(self).status(h),
            handle < old(self).count() ==> final(self).status(handle as int) == old(self).status(
                handle as int,
            ).next(old(self).config(), event, now) && r.action == old(self).status(
                handle as int,
            ).action(old(self).config(), event, now, jitter) && names(r.out_of_sync@) == (if old(self).status(handle as int).interrupts(old(self).config(), event, now) {
                old(self).instruments(handle as int)
            } else {
                Seq::<Seq<char>>::empty()
            }),
            handle >= old(self).count() ==> r.action == StreamAction::Nothing
                && r.out_of_sync@.len() == 0,
    {
        if handle >= self.connections.len() {
            return StreamOutput { action: StreamAction::Nothing, out_of_sync: Vec::new() };
        }
        let ghost before = self.connections@;
        let config: StreamConfig = self.config;
        let action: StreamAction = self.connections[handle].status.on_event(
            &config,
            event,
            now,
            jitter,
        );
        proof {
            assert forall|h: int| 0 <= h < before.len() && h != handle implies self.connections@[h]
                == before[h] by {}
        }
        let interrupted: bool = match action {
            StreamAction::Backoff { delay_ms } => true,
            _ => false,
        };
        let out_of_sync: Vec<String> = if interrupted {
            copy_names(&self.connections[handle].token_ids)
        } else {
            let none: Vec<String> = Vec::new();
            proof {
                assert(names(none@) =~= Seq::<Seq<char>>::empty());
            }
            none
        };
        StreamOutput { action, out_of_sync }
    }
}

} // verus!
