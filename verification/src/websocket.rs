//! The stream synchronizer's decision logic: an explicit state machine for
//! the snapshot-then-diff protocol, frame dispatch, liveness and the
//! reconnect/retry policy.
//!
//! The transport loop owns the sockets and timers; it reports each observed
//! event to [`StreamSynchronizer::step`] and performs the returned action.
//! Every decision — what a frame means, when to retry, when to give up — is
//! taken here.

use vstd::prelude::*;
use crate::DEPTH_LIMIT;
use crate::SCALE;
use crate::config::WebSocketConfig;
use crate::fair_price::{spec_push_history, FairPriceCalculator, FairPriceResult, FAIR_BOUND};
use crate::order_book::{OrderBookError, OrderBookManager, OrderBookUpdate};

verus! {

/// The synchronizer's connection states.
#[derive(Debug, Clone, Copy, PartialEq, Eq, Structural)]
pub enum SyncState {
    Idle,
    Snapshotting,
    Connecting,
    Streaming,
    /// Between attempts, backing off before the next one.
    Closed,
    /// Terminal: every reconnect attempt is spent.
    Failed,
}

/// One event the transport loop observes and reports.
#[derive(Debug, Clone, PartialEq, Eq)]
pub enum SyncEvent {
    Start,
    SnapshotOk,
    SnapshotFailed,
    ConnectOk,
    ConnectFailed,
    /// A data frame classified as a depth update; applied separately.
    FrameDepthUpdate,
    /// Any other data frame; ignored without error.
    FrameOther,
    /// An inbound liveness ping with its payload.
    FramePing(Vec<u8>),
    FramePong,
    FrameClose,
    StreamEnded,
    TransportError,
    /// The periodic ping timer fired.
    PingTick,
    SendOk,
    SendFailed,
    SleepDone,
}

/// What the transport loop must do next.
#[derive(Debug, Clone, PartialEq, Eq)]
pub enum SyncAction {
    /// Fetch a snapshot and initialize the store.
    FetchSnapshot,
    /// Open the diff stream.
    OpenStream,
    /// Wait for the next frame or timer tick.
    AwaitEvent,
    /// Reply to an inbound ping with the matching pong.
    SendPong(Vec<u8>),
    /// Send an outbound liveness ping.
    SendPing,
    /// Decode the frame, apply the diff and price the book.
    ProcessUpdate,
    /// Back off this many milliseconds, then report `SleepDone`.
    Sleep(u64),
    /// Terminal: surface `MaxReconnectAttemptsExceeded`.
    ReportFailure,
}

/// The terminal failure of the synchronizer.
#[derive(Debug, Clone, Copy, PartialEq, Eq, Structural)]
pub enum SyncError {
    MaxReconnectAttemptsExceeded,
}

/// The transition table: from a state, an attempt count and an event to the
/// next state, the new attempt count and the action.
pub open spec fn spec_step(
    state: SyncState,
    attempts: int,
    max_attempts: int,
    delay_ms: u64,
    event: SyncEvent,
) -> (SyncState, int, SyncAction) {
    let failed = if attempts < max_attempts {
        attempts + 1
    } else {
        attempts
    };
    let fail_step: (SyncState, int, SyncAction) = if failed >= max_attempts {
        (SyncState::Failed, failed, SyncAction::ReportFailure)
    } else {
        (SyncState::Closed, failed, SyncAction::Sleep(delay_ms))
    };
    match state {
        SyncState::Idle => match event {
            SyncEvent::Start => (SyncState::Snapshotting, attempts, SyncAction::FetchSnapshot),
            _ => (SyncState::Idle, attempts, SyncAction::AwaitEvent),
        },
        SyncState::Snapshotting => match event {
            SyncEvent::SnapshotOk => (SyncState::Connecting, attempts, SyncAction::OpenStream),
            SyncEvent::SnapshotFailed => fail_step,
            _ => (SyncState::Snapshotting, attempts, SyncAction::AwaitEvent),
        },
        SyncState::Connecting => match event {
            SyncEvent::ConnectOk => (SyncState::Streaming, attempts, SyncAction::AwaitEvent),
            SyncEvent::ConnectFailed => fail_step,
            _ => (SyncState::Connecting, attempts, SyncAction::AwaitEvent),
        },
        SyncState::Streaming => match event {
            SyncEvent::FrameDepthUpdate => (SyncState::Streaming, attempts, SyncAction::ProcessUpdate),
            SyncEvent::FramePing(data) => (SyncState::Streaming, attempts, SyncAction::SendPong(data)),
            SyncEvent::PingTick => (SyncState::Streaming, attempts, SyncAction::SendPing),
            SyncEvent::FrameOther => (SyncState::Streaming, attempts, SyncAction::AwaitEvent),
            SyncEvent::FramePong => (SyncState::Streaming, attempts, SyncAction::AwaitEvent),
            SyncEvent::SendOk => (SyncState::Streaming, attempts, SyncAction::AwaitEvent),
            SyncEvent::FrameClose => fail_step,
            SyncEvent::StreamEnded => fail_step,
            SyncEvent::TransportError => fail_step,
            SyncEvent::SendFailed => fail_step,
            _ => (SyncState::Streaming, attempts, SyncAction::AwaitEvent),
        },
        SyncState::Closed => match event {
            SyncEvent::SleepDone => (SyncState::Snapshotting, attempts, SyncAction::FetchSnapshot),
            _ => (SyncState::Closed, attempts, SyncAction::AwaitEvent),
        },
        SyncState::Failed => (SyncState::Failed, attempts, SyncAction::ReportFailure),
    }
}

/// Drives the snapshot-then-diff protocol: holds the connection state, the
/// spent reconnect attempts and the retry policy.
pub struct StreamSynchronizer {
    state: SyncState,
    attempts: u32,
    max_attempts: u32,
    reconnect_delay_ms: u64,
}

impl StreamSynchronizer {
    pub closed spec fn wf(self) -> bool {
        &&& self.attempts <= self.max_attempts
        &&& (self.state is Failed ==> self.attempts == self.max_attempts)
    }

    pub closed spec fn spec_state(self) -> SyncState {
        self.state
    }

    pub closed spec fn spec_attempts(self) -> int {
        self.attempts as int
    }

    pub closed spec fn spec_max_attempts(self) -> int {
        self.max_attempts as int
    }

    pub closed spec fn spec_delay_ms(self) -> u64 {
        self.reconnect_delay_ms
    }

    pub fn new(config: &WebSocketConfig) -> (r: StreamSynchronizer)
        ensures
            r.wf(),
            r.spec_state() is Idle,
            r.spec_attempts() == 0,
            r.spec_max_attempts() == config.reconnect_attempts as int,
            r.spec_delay_ms() == config.reconnect_delay_ms,
    {
        StreamSynchronizer {
            state: SyncState::Idle,
            attempts: 0,
            max_attempts: config.reconnect_attempts,
            reconnect_delay_ms: config.reconnect_delay_ms,
        }
    }

    pub fn state(&self) -> (r: SyncState)
        ensures
            r == self.spec_state(),
    {
        self.state
    }

    pub fn attempts(&self) -> (r: u32)
        ensures
            r as int == self.spec_attempts(),
    {
        self.attempts
    }

    /// Takes one transition of the table. Attempts never exceed the
    /// configured maximum; the `Failed` state is reached exactly when every
    /// attempt is spent, and is absorbing.
    pub fn step(&mut self, event: SyncEvent) -> (action: SyncAction)
        requires
            old(self).wf(),
        ensures
            final(self).wf(),
            final(self).spec_max_attempts() == old(self).spec_max_attempts(),
            final(self).spec_delay_ms() == old(self).spec_delay_ms(),
            final(self).spec_state() == spec_step(
                old(self).spec_state(),
                old(self).spec_attempts(),
                old(self).spec_max_attempts(),
                old(self).spec_delay_ms(),
                event,
            ).0,
            final(self).spec_attempts() == spec_step(
                old(self).spec_state(),
                old(self).spec_attempts(),
                old(self).spec_max_attempts(),
                old(self).spec_delay_ms(),
                event,
            ).1,
            action == spec_step(
                old(self).spec_state(),
                old(self).spec_attempts(),
                old(self).spec_max_attempts(),
                old(self).spec_delay_ms(),
                event,
            ).2,
            final(self).spec_attempts() <= final(self).spec_max_attempts(),
            final(self).spec_state() is Failed ==> final(self).spec_attempts()
                == final(self).spec_max_attempts(),
            old(self).spec_state() is Failed ==> final(self).spec_state() is Failed,
    {
        match self.state {
            SyncState::Idle => match event {
                SyncEvent::Start => {
                    self.state = SyncState::Snapshotting;
                    SyncAction::FetchSnapshot
                },
                _ => SyncAction::AwaitEvent,
            },
            SyncState::Snapshotting => match event {
                SyncEvent::SnapshotOk => {
                    self.state = SyncState::Connecting;
                    SyncAction::OpenStream
                },
                SyncEvent::SnapshotFailed => self.fail_attempt(),
                _ => SyncAction::AwaitEvent,
            },
            SyncState::Connecting => match event {
                SyncEvent::ConnectOk => {
                    self.state = SyncState::Streaming;
                    SyncAction::AwaitEvent
                },
                SyncEvent::ConnectFailed => self.fail_attempt(),
                _ => SyncAction::AwaitEvent,
            },
            SyncState::Streaming => match event {
                SyncEvent::FrameDepthUpdate => SyncAction::ProcessUpdate,
                SyncEvent::FramePing(data) => SyncAction::SendPong(data),
                SyncEvent::PingTick => SyncAction::SendPing,
                SyncEvent::FrameOther => SyncAction::AwaitEvent,
                SyncEvent::FramePong => SyncAction::AwaitEvent,
                SyncEvent::SendOk => SyncAction::AwaitEvent,
                SyncEvent::FrameClose => self.fail_attempt(),
                SyncEvent::StreamEnded => self.fail_attempt(),
                SyncEvent::TransportError => self.fail_attempt(),
                SyncEvent::SendFailed => self.fail_attempt(),
                _ => SyncAction::AwaitEvent,
            },
            SyncState::Closed => match event {
                SyncEvent::SleepDone => {
                    self.state = SyncState::Snapshotting;
                    SyncAction::FetchSnapshot
                },
                _ => SyncAction::AwaitEvent,
            },
            SyncState::Failed => SyncAction::ReportFailure,
        }
    }

    /// One attempt is spent: back off if any remain, else fail for good.
    fn fail_attempt(&mut self) -> (action: SyncAction)
        requires
            old(self).wf(),
        ensures
            final(self).wf(),
            final(self).max_attempts == old(self).max_attempts,
            final(self).reconnect_delay_ms == old(self).reconnect_delay_ms,
            final(self).attempts as int == if old(self).attempts < old(self).max_attempts {
                old(self).attempts + 1
            } else {
                old(self).attempts as int
            },
            final(self).attempts >= final(self).max_attempts ==> final(self).state is Failed
                && action == SyncAction::ReportFailure,
            final(self).attempts < final(self).max_attempts ==> final(self).state is Closed
                && action == SyncAction::Sleep(old(self).reconnect_delay_ms),
    {
        if self.attempts < self.max_attempts {
            self.attempts = self.attempts + 1;
        }
        if self.attempts >= self.max_attempts {
            self.state = SyncState::Failed;
            SyncAction::ReportFailure
        } else {
            self.state = SyncState::Closed;
            SyncAction::Sleep(self.reconnect_delay_ms)
        }
    }
}

/// Outcome of handling one depth-update frame.
#[derive(Debug, Clone, Copy)]
pub enum UpdateOutcome {
    /// The frame names another symbol: logged and ignored, not an error.
    SymbolMismatch,
    /// The store rejected the diff.
    StoreError(OrderBookError),
    /// The book is absent or not valid for pricing this tick.
    NoResult,
    /// The diff was applied and the book priced.
    Priced(FairPriceResult),
}

/// Handles one decoded depth update: verifies the symbol, applies the diff
/// to the store, and prices the updated book. A mismatched symbol is
/// reported if and only if the frame's symbol differs from the configured
/// one, and is a soft skip, as is a book that cannot be priced this tick.
pub fn process_update(
    manager: &OrderBookManager,
    calculator: &mut FairPriceCalculator,
    configured_symbol: &String,
    update: &OrderBookUpdate,
) -> (r: UpdateOutcome)
    requires
        manager.wf(),
        old(calculator).wf(),
        manager.spec_max_depth() <= DEPTH_LIMIT as int,
    ensures
        final(calculator).wf(),
        final(calculator).spec_method() == old(calculator).spec_method(),
        r is SymbolMismatch <==> update.symbol@ != configured_symbol@,
        r matches UpdateOutcome::Priced(res) ==> res.confidence <= SCALE && -FAIR_BOUND
            <= res.fair_price <= FAIR_BOUND,
        r matches UpdateOutcome::Priced(res) ==> final(calculator).spec_history()
            == spec_push_history(old(calculator).spec_history(), res.fair_price),
        !(r is Priced) ==> *final(calculator) == *old(calculator),
{
    if !update.symbol.eq(configured_symbol) {
        return UpdateOutcome::SymbolMismatch;
    }
    match manager.apply_update(update) {
        Err(e) => UpdateOutcome::StoreError(e),
        Ok(_u) => {
            match manager.get_order_book() {
                None => UpdateOutcome::NoResult,
                Some(book) => {
                    match calculator.calculate(&book) {
                        None => UpdateOutcome::NoResult,
                        Some(res) => UpdateOutcome::Priced(res),
                    }
                },
            }
        },
    }
}

/// A reader's view of the connection and the held book.
pub struct ConnectionStats {
    pub is_order_book_ready: bool,
    pub current_spread: Option<i64>,
    pub current_mid_price: Option<u64>,
    pub symbol: String,
}

/// Collects the statistics a monitoring path reads, without blocking the
/// writer.
pub fn collect_stats(manager: &OrderBookManager, symbol: &String) -> (r: ConnectionStats)
    requires
        manager.wf(),
    ensures
        r.symbol@ == symbol@,
{
    ConnectionStats {
        is_order_book_ready: manager.is_ready(),
        current_spread: manager.get_spread(),
        current_mid_price: manager.get_mid_price(),
        symbol: symbol.clone(),
    }
}

} // verus!
