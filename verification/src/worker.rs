//! A forwarder thread as a state machine.
//!
//! The thread itself does what an [`Action`] asks for, and hands back what came of it as an
//! [`Event`]; all decisions are taken here. Times are nanoseconds of a clock that the thread
//! chooses once and keeps.

use std::collections::VecDeque;

use vstd::prelude::*;

use crate::metrics::{BlockEngineSend, ForwarderMetrics};
use crate::packet::{contents, num_packets, share, total_packets, BankingPacketBatch};

verus! {

/// The number of batches that the block engine's queue can hold.
pub const BLOCK_ENGINE_FORWARDER_QUEUE_CAPACITY: usize = 5_000;

/// The number of delayed batches that a thread has room for when it starts.
pub const BUFFERED_PACKET_BATCHES_CAPACITY: usize = 100_000;

/// The time between two reports of a thread's metrics.
pub const METRICS_INTERVAL_NANOS: u128 = 1_000_000_000;

/// The longest time that a thread waits for a batch, in milliseconds.
pub const SLEEP_DURATION_MS: u64 = 5;

/// The nanoseconds of a millisecond.
pub const NANOS_PER_MILLI: u128 = 1_000_000;

/// A batch that is held back, and when it was received.
#[derive(Debug)]
pub struct RelayerPacketBatches {
    pub stamp: u128,
    pub banking_packet_batch: BankingPacketBatch,
}

impl RelayerPacketBatches {
    /// How many packets are held back.
    pub open spec fn num_packets(self) -> nat {
        total_packets(contents(self.banking_packet_batch.0@))
    }

    /// The batch has been held back for `delay_ms` milliseconds at the time `now`.
    pub open spec fn due(self, now: u128, delay_ms: u32) -> bool {
        elapsed(self.stamp, now) >= delay_ms * NANOS_PER_MILLI
    }
}

/// The time from `since` to `now`, or zero if `now` comes first.
pub open spec fn elapsed(since: u128, now: u128) -> int {
    if now >= since {
        now - since
    } else {
        0
    }
}

fn nanos_since(since: u128, now: u128) -> (nanos: u128)
    ensures
        nanos == elapsed(since, now),
{
    if now >= since {
        now - since
    } else {
        0
    }
}

/// What a thread is told when it is started. Batches are held back for `packet_delay_ms`
/// milliseconds on their way to the validator, and expire after as many at the block engine; with
/// `disable_mempool` none goes to the block engine.
#[derive(Clone, Copy, Debug)]
pub struct Settings {
    pub packet_delay_ms: u32,
    pub disable_mempool: bool,
}

/// What a thread has asked for and waits for.
#[derive(Clone, Copy, Debug)]
pub enum Phase {
    Polling,
    Reporting,
    Receiving,
    Forwarding { num_packets: u64 },
    Draining,
    Delivering,
    Measuring,
    Stopped,
}

/// Why a thread gives up.
#[derive(Clone, Copy, PartialEq, Eq, Structural, Debug)]
pub enum Failure {
    ReceiverDisconnected,
    BlockEngineClosed,
    DeliveryFailed,
}

impl Failure {
    /// What the thread panics with.
    pub open spec fn text(self) -> Seq<char> {
        match self {
            Failure::ReceiverDisconnected => "packet receiver disconnected"@,
            Failure::BlockEngineClosed => "error sending packet batch to block engine handler"@,
            Failure::DeliveryFailed => "exiting forwarding delayed packets"@,
        }
    }

    pub fn message(&self) -> (message: &'static str)
        ensures
            message@ == self.text(),
    {
        match self {
            Failure::ReceiverDisconnected => "packet receiver disconnected",
            Failure::BlockEngineClosed => "error sending packet batch to block engine handler",
            Failure::DeliveryFailed => "exiting forwarding delayed packets",
        }
    }
}

/// What a thread is to do next.
#[derive(Debug)]
pub enum Action {
    /// See whether the thread is to exit, and read the clock.
    Poll,
    /// Report these metrics, then read the clock and the capacities of the queues.
    Report(ForwarderMetrics),
    /// Wait for a batch.
    Receive,
    /// Filter this batch and try to send what is left to the block engine, to expire after so many
    /// milliseconds.
    Forward { banking_packet_batch: BankingPacketBatch, expiration: u32 },
    /// Read the clock.
    ReadClock,
    /// Hand this batch on to the validator.
    Deliver(RelayerPacketBatches),
    /// Read how full the queues are.
    Measure,
    /// Exit.
    Stop,
    /// Give up.
    Fail(Failure),
}

/// What came of an action.
#[derive(Debug)]
pub enum Event {
    Polled { exit: bool, now: u128 },
    Reported {
        now: u128,
        buffered_capacity: usize,
        verified_receiver_capacity: Option<usize>,
        block_engine_capacity: usize,
    },
    Received { now: u128, banking_packet_batch: BankingPacketBatch },
    ReceiveTimedOut,
    ReceiverDisconnected,
    Forwarded(BlockEngineSend),
    ClockRead { now: u128 },
    Delivered,
    DeliveryFailed,
    Measured {
        buffered_capacity: usize,
        verified_receiver_len: usize,
        block_engine_capacity: usize,
    },
}

/// The state of a thread, with the batches that it holds back, oldest first.
pub struct ThreadState {
    pub settings: Settings,
    pub phase: Phase,
    pub buffered: Seq<RelayerPacketBatches>,
    pub metrics: ForwarderMetrics,
    pub last_metrics_upload: u128,
}

/// The capacity of a queue, which is zero if the queue has no bound.
pub open spec fn capacity_or_zero(capacity: Option<usize>) -> usize {
    match capacity {
        Some(capacity) => capacity,
        None => 0,
    }
}

impl ThreadState {
    /// The packets that have been received and not yet counted as sent, dropped or filtered.
    pub open spec fn in_flight(self) -> nat {
        match self.phase {
            Phase::Forwarding { num_packets } => num_packets as nat,
            _ => 0,
        }
    }

    /// What holds of every state that a thread reaches: what went to the block engine, or was
    /// dropped on the way, was received before; and whatever is held back can be counted.
    pub open spec fn inv(self) -> bool {
        &&& self.metrics.num_be_packets_forwarded + self.metrics.num_be_packets_dropped
            + self.in_flight() <= self.metrics.num_packets_received
        &&& self.metrics.num_be_sender_full + (if self.phase is Forwarding {
            1int
        } else {
            0
        }) <= self.metrics.num_batches_received
        &&& forall|i: int|
            0 <= i < self.buffered.len() ==> (#[trigger] self.buffered[i]).num_packets() <= u64::MAX
        &&& self.phase is Draining ==> self.buffered.len() > 0
        &&& self.phase is Forwarding ==> !self.settings.disable_mempool
    }

    /// The oldest batch that is held back is due.
    pub open spec fn front_due(self, now: u128) -> bool {
        self.buffered.len() > 0 && self.buffered[0].due(now, self.settings.packet_delay_ms)
    }

    /// The event answers what the thread asked for, and all that it counts fits in the counters.
    pub open spec fn accepts(self, event: Event) -> bool {
        match event {
            Event::Polled { .. } => self.phase is Polling,
            Event::Reported { .. } => self.phase is Reporting,
            Event::Received { banking_packet_batch, .. } => {
                let num = total_packets(contents(banking_packet_batch.0@));
                &&& self.phase is Receiving
                &&& self.metrics.num_batches_received < u64::MAX
                &&& self.metrics.num_packets_received + num <= u64::MAX
            },
            Event::ReceiveTimedOut => self.phase is Receiving,
            Event::ReceiverDisconnected => self.phase is Receiving,
            Event::Forwarded(_) => self.phase is Forwarding,
            Event::ClockRead { now } => {
                &&& self.phase is Draining
                &&& self.front_due(now) ==> self.metrics.num_relayer_packets_forwarded
                    + self.buffered[0].num_packets() <= u64::MAX
            },
            Event::Delivered => self.phase is Delivering,
            Event::DeliveryFailed => self.phase is Delivering,
            Event::Measured { block_engine_capacity, .. } => {
                &&& self.phase is Measuring
                &&& block_engine_capacity <= BLOCK_ENGINE_FORWARDER_QUEUE_CAPACITY
            },
        }
    }

    /// The state in another phase.
    pub open spec fn to(self, phase: Phase) -> ThreadState {
        ThreadState { phase, ..self }
    }

    /// Gives up.
    pub open spec fn fail(self, failure: Failure) -> (ThreadState, Action) {
        (self.to(Phase::Stopped), Action::Fail(failure))
    }

    /// Goes on to what is held back, if anything is.
    pub open spec fn drain(self) -> (ThreadState, Action) {
        if self.buffered.len() == 0 {
            (self.to(Phase::Measuring), Action::Measure)
        } else {
            (self.to(Phase::Draining), Action::ReadClock)
        }
    }

    /// Takes in a batch that arrived at the time `now`: counts it, holds it back for the
    /// validator, and has it forwarded to the block engine unless that is disabled.
    pub open spec fn take_in(self, now: u128, batch: BankingPacketBatch) -> (ThreadState, Action) {
        let num_packets = total_packets(contents(batch.0@)) as u64;
        let taken = ThreadState {
            metrics: self.metrics.received(num_packets),
            buffered: self.buffered.push(
                RelayerPacketBatches { stamp: now, banking_packet_batch: batch },
            ),
            ..self
        };
        if self.settings.disable_mempool {
            taken.drain()
        } else {
            (
                taken.to(Phase::Forwarding { num_packets }),
                Action::Forward {
                    banking_packet_batch: batch,
                    expiration: self.settings.packet_delay_ms,
                },
            )
        }
    }

    /// Hands on the oldest batch.
    pub open spec fn hand_on(self) -> (ThreadState, Action) {
        let front = self.buffered[0];
        (
            ThreadState {
                metrics: self.metrics.relayed(front.num_packets() as u64),
                buffered: self.buffered.drop_first(),
                phase: Phase::Delivering,
                ..self
            },
            Action::Deliver(front),
        )
    }

    /// The state and the action that follow on an event.
    pub open spec fn next(self, event: Event) -> (ThreadState, Action) {
        match event {
            Event::Polled { exit, now } => if exit {
                (self.to(Phase::Stopped), Action::Stop)
            } else if elapsed(self.last_metrics_upload, now) >= METRICS_INTERVAL_NANOS {
                (self.to(Phase::Reporting), Action::Report(self.metrics))
            } else {
                (self.to(Phase::Receiving), Action::Receive)
            },
            Event::Reported {
                now,
                buffered_capacity,
                verified_receiver_capacity,
                block_engine_capacity,
            } => (
                ThreadState {
                    metrics: ForwarderMetrics::fresh(
                        buffered_capacity,
                        capacity_or_zero(verified_receiver_capacity),
                        block_engine_capacity,
                    ),
                    last_metrics_upload: now,
                    phase: Phase::Receiving,
                    ..self
                },
                Action::Receive,
            ),
            Event::Received { now, banking_packet_batch } => self.take_in(
                now,
                banking_packet_batch,
            ),
            Event::ReceiveTimedOut => self.drain(),
            Event::ReceiverDisconnected => self.fail(Failure::ReceiverDisconnected),
            Event::Forwarded(BlockEngineSend::Closed) => self.fail(Failure::BlockEngineClosed),
            Event::Forwarded(send) => ThreadState {
                metrics: self.metrics.sent(send, self.in_flight() as u64),
                ..self
            }.drain(),
            Event::ClockRead { now } => if self.front_due(now) {
                self.hand_on()
            } else {
                (self.to(Phase::Measuring), Action::Measure)
            },
            Event::Delivered => self.drain(),
            Event::DeliveryFailed => self.fail(Failure::DeliveryFailed),
            Event::Measured { buffered_capacity, verified_receiver_len, block_engine_capacity } => (
                ThreadState {
                    metrics: self.metrics.raised(
                        self.buffered.len() as usize,
                        buffered_capacity,
                        verified_receiver_len,
                        (BLOCK_ENGINE_FORWARDER_QUEUE_CAPACITY - block_engine_capacity) as usize,
                    ),
                    phase: Phase::Polling,
                    ..self
                },
                Action::Poll,
            ),
        }
    }
}

impl ThreadState {
    /// Every event that a thread accepts leads from a state that satisfies the invariant to
    /// another.
    pub proof fn law_next_keeps_inv(self, event: Event)
        requires
            self.inv(),
            self.accepts(event),
        ensures
            self.next(event).0.inv(),
    {
        let next = self.next(event).0;
        assert forall|i: int| 0 <= i < next.buffered.len() implies (
        #[trigger] next.buffered[i]).num_packets() <= u64::MAX by {
            match event {
                Event::Received { .. } => {
                    if i < self.buffered.len() {
                        assert(next.buffered[i] == self.buffered[i]);
                    }
                },
                Event::ClockRead { now } => {
                    if self.front_due(now) {
                        assert(next.buffered[i] == self.buffered[i + 1]);
                    }
                },
                _ => {
                    assert(next.buffered[i] == self.buffered[i]);
                },
            }
        }
    }
}

/// How many batches the buffer can hold without growing, by `std::collections::VecDeque::capacity`.
///
/// No fewer than it holds. How many more is up to the allocator and not stated.
#[verifier::external_body]
fn buffer_capacity(buffer: &VecDeque<RelayerPacketBatches>) -> (capacity: usize)
    ensures
        capacity >= buffer@.len(),
{
    buffer.capacity()
}

/// A forwarder thread. It starts with [`Action::Poll`].
#[derive(Debug)]
pub struct ForwarderThread {
    settings: Settings,
    phase: Phase,
    buffered_packet_batches: VecDeque<RelayerPacketBatches>,
    forwarder_metrics: ForwarderMetrics,
    last_metrics_upload: u128,
}

impl View for ForwarderThread {
    type V = ThreadState;

    closed spec fn view(&self) -> ThreadState {
        ThreadState {
            settings: self.settings,
            phase: self.phase,
            buffered: self.buffered_packet_batches@,
            metrics: self.forwarder_metrics,
            last_metrics_upload: self.last_metrics_upload,
        }
    }
}

impl ForwarderThread {
    /// A thread that holds nothing back and has counted nothing. The receiver's capacity is `None`
    /// if it has no bound.
    pub fn new(
        settings: Settings,
        now: u128,
        verified_receiver_capacity: Option<usize>,
        block_engine_capacity: usize,
    ) -> (thread: Self)
        ensures
            thread@.inv(),
            thread@.settings == settings,
            thread@.phase is Polling,
            thread@.buffered == Seq::<RelayerPacketBatches>::empty(),
            thread@.last_metrics_upload == now,
            thread@.metrics == ForwarderMetrics::fresh(
                thread@.metrics.buffered_packet_batches_capacity,
                capacity_or_zero(verified_receiver_capacity),
                block_engine_capacity,
            ),
    {
        let buffered_packet_batches: VecDeque<RelayerPacketBatches> = VecDeque::with_capacity(
            BUFFERED_PACKET_BATCHES_CAPACITY,
        );
        let capacity = buffer_capacity(&buffered_packet_batches);
        let verified_receiver_capacity: usize = match verified_receiver_capacity {
            Some(capacity) => capacity,
            None => 0,
        };
        ForwarderThread {
            settings,
            phase: Phase::Polling,
            buffered_packet_batches,
            forwarder_metrics: ForwarderMetrics::new(
                capacity,
                verified_receiver_capacity,
                block_engine_capacity,
            ),
            last_metrics_upload: now,
        }
    }

    /// How many batches the thread can hold back without asking for more memory.
    pub fn buffered_capacity(&self) -> (capacity: usize)
        ensures
            capacity >= self@.buffered.len(),
    {
        buffer_capacity(&self.buffered_packet_batches)
    }

    /// Whether [`step`](Self::step) can take the event.
    pub fn can_step(&self, event: &Event) -> (can: bool)
        requires
            self@.inv(),
        ensures
            can == self@.accepts(*event),
    {
        match event {
            Event::Polled { .. } => matches!(self.phase, Phase::Polling),
            Event::Reported { .. } => matches!(self.phase, Phase::Reporting),
            Event::Received { banking_packet_batch, .. } => match num_packets(
                &banking_packet_batch.0,
            ) {
                Some(num) => matches!(self.phase, Phase::Receiving)
                    && self.forwarder_metrics.num_batches_received < u64::MAX
                    && self.forwarder_metrics.num_packets_received <= u64::MAX - num,
                None => false,
            },
            Event::ReceiveTimedOut | Event::ReceiverDisconnected => matches!(
                self.phase,
                Phase::Receiving
            ),
            Event::Forwarded(_) => matches!(self.phase, Phase::Forwarding { .. }),
            Event::ClockRead { now } => matches!(self.phase, Phase::Draining) && (!self.is_front_due(
                *now,
            ) || match num_packets(&self.buffered_packet_batches[0].banking_packet_batch.0) {
                Some(num) => self.forwarder_metrics.num_relayer_packets_forwarded <= u64::MAX - num,
                None => false,
            }),
            Event::Delivered | Event::DeliveryFailed => matches!(self.phase, Phase::Delivering),
            Event::Measured { block_engine_capacity, .. } => matches!(self.phase, Phase::Measuring)
                && *block_engine_capacity <= BLOCK_ENGINE_FORWARDER_QUEUE_CAPACITY,
        }
    }

    /// Takes what came of the last action, and says what to do next.
    pub fn step(&mut self, event: Event) -> (action: Action)
        requires
            old(self)@.inv(),
            old(self)@.accepts(event),
        ensures
            final(self)@.inv(),
            (final(self)@, action) == old(self)@.next(event),
    {
        proof {
            self@.law_next_keeps_inv(event);
        }
        match event {
            Event::Polled { exit, now } => self.polled(exit, now),
            Event::Reported {
                now,
                buffered_capacity,
                verified_receiver_capacity,
                block_engine_capacity,
            } => {
                let verified_receiver_capacity: usize = match verified_receiver_capacity {
                    Some(capacity) => capacity,
                    None => 0,
                };
                self.forwarder_metrics = ForwarderMetrics::new(
                    buffered_capacity,
                    verified_receiver_capacity,
                    block_engine_capacity,
                );
                self.last_metrics_upload = now;
                self.phase = Phase::Receiving;
                Action::Receive
            },
            Event::Received { now, banking_packet_batch } => self.take_in(
                now,
                banking_packet_batch,
            ),
            Event::ReceiveTimedOut => self.drain(),
            Event::ReceiverDisconnected => self.fail(Failure::ReceiverDisconnected),
            Event::Forwarded(send) => self.forwarded(send),
            Event::ClockRead { now } => if self.is_front_due(now) {
                self.hand_on()
            } else {
                self.phase = Phase::Measuring;
                Action::Measure
            },
            Event::Delivered => self.drain(),
            Event::DeliveryFailed => self.fail(Failure::DeliveryFailed),
            Event::Measured { buffered_capacity, verified_receiver_len, block_engine_capacity } => {
                self.forwarder_metrics.update_queue_lengths(
                    self.buffered_packet_batches.len(),
                    buffered_capacity,
                    verified_receiver_len,
                    BLOCK_ENGINE_FORWARDER_QUEUE_CAPACITY - block_engine_capacity,
                );
                self.phase = Phase::Polling;
                Action::Poll
            },
        }
    }

    fn polled(&mut self, exit: bool, now: u128) -> (action: Action)
        ensures
            (final(self)@, action) == old(self)@.next(Event::Polled { exit, now }),
    {
        if exit {
            self.phase = Phase::Stopped;
            Action::Stop
        } else if nanos_since(self.last_metrics_upload, now) >= METRICS_INTERVAL_NANOS {
            self.phase = Phase::Reporting;
            Action::Report(self.forwarder_metrics)
        } else {
            self.phase = Phase::Receiving;
            Action::Receive
        }
    }

    fn is_front_due(&self, now: u128) -> (due: bool)
        ensures
            due == self@.front_due(now),
    {
        if self.buffered_packet_batches.len() == 0 {
            return false;
        }
        let packet_delay: u128 = self.settings.packet_delay_ms as u128 * NANOS_PER_MILLI;
        nanos_since(self.buffered_packet_batches[0].stamp, now) >= packet_delay
    }

    fn fail(&mut self, failure: Failure) -> (action: Action)
        ensures
            (final(self)@, action) == old(self)@.fail(failure),
    {
        self.phase = Phase::Stopped;
        Action::Fail(failure)
    }

    fn drain(&mut self) -> (action: Action)
        ensures
            (final(self)@, action) == old(self)@.drain(),
    {
        if self.buffered_packet_batches.len() == 0 {
            self.phase = Phase::Measuring;
            Action::Measure
        } else {
            self.phase = Phase::Draining;
            Action::ReadClock
        }
    }

    fn take_in(&mut self, now: u128, banking_packet_batch: BankingPacketBatch) -> (action: Action)
        requires
            old(self)@.inv(),
            old(self)@.accepts(Event::Received { now, banking_packet_batch }),
        ensures
            (final(self)@, action) == old(self)@.take_in(now, banking_packet_batch),
    {
        let num: u64 = num_packets(&banking_packet_batch.0).unwrap();
        self.forwarder_metrics.record_received(num);
        let held = share(&banking_packet_batch);
        self.buffered_packet_batches.push_back(
            RelayerPacketBatches { stamp: now, banking_packet_batch: held },
        );
        if self.settings.disable_mempool {
            self.drain()
        } else {
            self.phase = Phase::Forwarding { num_packets: num };
            Action::Forward { banking_packet_batch, expiration: self.settings.packet_delay_ms }
        }
    }

    fn forwarded(&mut self, send: BlockEngineSend) -> (action: Action)
        requires
            old(self)@.inv(),
            old(self)@.phase is Forwarding,
        ensures
            (final(self)@, action) == old(self)@.next(Event::Forwarded(send)),
    {
        if let BlockEngineSend::Closed = send {
            return self.fail(Failure::BlockEngineClosed);
        }
        let num: u64 = match self.phase {
            Phase::Forwarding { num_packets } => num_packets,
            _ => 0,
        };
        self.forwarder_metrics.record_block_engine_send(send, num);
        self.drain()
    }

    fn hand_on(&mut self) -> (action: Action)
        requires
            old(self)@.inv(),
            old(self)@.phase is Draining,
            old(self)@.metrics.num_relayer_packets_forwarded + old(
                self,
            )@.buffered[0].num_packets() <= u64::MAX,
        ensures
            (final(self)@, action) == old(self)@.hand_on(),
    {
        let front = self.buffered_packet_batches.pop_front().unwrap();
        let num: u64 = num_packets(&front.banking_packet_batch.0).unwrap();
        self.forwarder_metrics.record_relayed(num);
        self.phase = Phase::Delivering;
        Action::Deliver(front)
    }
}

} // verus!
