//! What a forwarder thread promises over a whole run.

use vstd::prelude::*;

use crate::metrics::{is_larger_of, larger, BlockEngineSend, ForwarderMetrics};
use crate::packet::{contents, total_packets, BankingPacketBatch, PACKET_DATA_SIZE};
use crate::worker::{
    capacity_or_zero, elapsed, Action, Event, Failure, Phase, RelayerPacketBatches, ThreadState,
    BLOCK_ENGINE_FORWARDER_QUEUE_CAPACITY, BUFFERED_PACKET_BATCHES_CAPACITY,
    METRICS_INTERVAL_NANOS, SLEEP_DURATION_MS,
};

verus! {

/// The state after the events, and the action that followed on each.
pub open spec fn run(start: ThreadState, events: Seq<Event>) -> (ThreadState, Seq<Action>)
    decreases events.len(),
{
    if events.len() == 0 {
        (start, Seq::empty())
    } else {
        let (state, actions) = run(start, events.drop_last());
        let (next, action) = state.next(events.last());
        (next, actions.push(action))
    }
}

/// The thread accepts each event in the state that the events before it led to.
pub open spec fn accepted(start: ThreadState, events: Seq<Event>) -> bool
    decreases events.len(),
{
    events.len() == 0 || {
        &&& accepted(start, events.drop_last())
        &&& run(start, events.drop_last()).0.accepts(events.last())
    }
}

/// The batches that arrived, each with the time of its arrival.
pub open spec fn received(events: Seq<Event>) -> Seq<RelayerPacketBatches>
    decreases events.len(),
{
    if events.len() == 0 {
        Seq::empty()
    } else {
        let before = received(events.drop_last());
        match events.last() {
            Event::Received { now, banking_packet_batch } => before.push(
                RelayerPacketBatches { stamp: now, banking_packet_batch },
            ),
            _ => before,
        }
    }
}

/// The batches that were handed on to the validator.
pub open spec fn delivered(actions: Seq<Action>) -> Seq<RelayerPacketBatches>
    decreases actions.len(),
{
    if actions.len() == 0 {
        Seq::empty()
    } else {
        let before = delivered(actions.drop_last());
        match actions.last() {
            Action::Deliver(batch) => before.push(batch),
            _ => before,
        }
    }
}

/// The batches that were to be forwarded to the block engine, each with the milliseconds after which
/// it expires.
pub open spec fn forwarded(actions: Seq<Action>) -> Seq<(BankingPacketBatch, u32)>
    decreases actions.len(),
{
    if actions.len() == 0 {
        Seq::empty()
    } else {
        let before = forwarded(actions.drop_last());
        match actions.last() {
            Action::Forward { banking_packet_batch, expiration } => before.push(
                (banking_packet_batch, expiration),
            ),
            _ => before,
        }
    }
}

/// A thread acts once for each event.
pub proof fn lemma_run_len(start: ThreadState, events: Seq<Event>)
    ensures
        run(start, events).1.len() == events.len(),
        run(start, events).0.settings == start.settings,
    decreases events.len(),
{
    if events.len() > 0 {
        lemma_run_len(start, events.drop_last());
    }
}

/// The invariant holds after every run.
pub proof fn law_inv_holds_throughout(start: ThreadState, events: Seq<Event>)
    requires
        start.inv(),
        accepted(start, events),
    ensures
        run(start, events).0.inv(),
    decreases events.len(),
{
    if events.len() > 0 {
        law_inv_holds_throughout(start, events.drop_last());
        run(start, events.drop_last()).0.law_next_keeps_inv(events.last());
    }
}

/// Nothing is lost, doubled or reordered on the way to the validator: what was handed on, followed
/// by what is still held back, is what was held back at first, followed by what arrived.
pub proof fn law_every_batch_is_delivered_once_in_order(start: ThreadState, events: Seq<Event>)
    requires
        accepted(start, events),
    ensures
        delivered(run(start, events).1) + run(start, events).0.buffered == start.buffered
            + received(events),
    decreases events.len(),
{
    let (end, actions) = run(start, events);
    if events.len() == 0 {
        assert(delivered(actions) + end.buffered =~= start.buffered + received(events));
    } else {
        let fewer = events.drop_last();
        law_every_batch_is_delivered_once_in_order(start, fewer);
        let (state, before) = run(start, fewer);
        assert(actions.drop_last() =~= before);
        assert(actions.last() == state.next(events.last()).1);
        let all = start.buffered + received(fewer);
        match events.last() {
            Event::Received { now, banking_packet_batch } => {
                let batch = RelayerPacketBatches { stamp: now, banking_packet_batch };
                assert(delivered(actions) == delivered(before));
                assert(delivered(before) + state.buffered.push(batch) =~= all.push(batch));
                assert(start.buffered + received(fewer).push(batch) =~= all.push(batch));
            },
            Event::ClockRead { now } => {
                if state.front_due(now) {
                    let front = state.buffered[0];
                    assert(delivered(before).push(front) + state.buffered.drop_first() =~= delivered(
                        before,
                    ) + state.buffered);
                }
            },
            _ => {},
        }
    }
}

/// Nothing is handed on to the validator early: at the clock reading on which a batch is handed on,
/// as many milliseconds as the delay has, of a million nanoseconds each, have passed since the batch
/// arrived.
pub proof fn law_no_batch_is_delivered_early(start: ThreadState, events: Seq<Event>, i: int)
    requires
        accepted(start, events),
        0 <= i < events.len(),
    ensures
        run(start, events).1[i] matches Action::Deliver(batch) ==> {
            &&& events[i] matches Event::ClockRead { now }
            &&& batch.due(now, start.settings.packet_delay_ms)
            &&& start.settings.packet_delay_ms > 0 ==> now >= batch.stamp
                + start.settings.packet_delay_ms * 1_000_000
        },
    decreases events.len(),
{
    let fewer = events.drop_last();
    lemma_run_len(start, fewer);
    if i < fewer.len() {
        law_no_batch_is_delivered_early(start, fewer, i);
        assert(run(start, events).1[i] == run(start, fewer).1[i]);
    }
}

/// The arrival times never go back.
pub open spec fn arrivals_in_order(events: Seq<Event>) -> bool {
    forall|i: int, j: int|
        0 <= i < j < events.len() ==> (#[trigger] events[i] matches Event::Received { now: a, .. }
            ==> (#[trigger] events[j] matches Event::Received { now: b, .. } ==> a <= b))
}

/// Each arrival is that of some event.
proof fn lemma_received_from(events: Seq<Event>, i: int) -> (at: int)
    requires
        0 <= i < received(events).len(),
    ensures
        0 <= at < events.len(),
        events[at] == (Event::Received {
            now: received(events)[i].stamp,
            banking_packet_batch: received(events)[i].banking_packet_batch,
        }),
    decreases events.len(),
{
    let fewer = events.drop_last();
    if i < received(fewer).len() {
        let at = lemma_received_from(fewer, i);
        assert(events[at] == fewer[at]);
        at
    } else {
        events.len() - 1
    }
}

/// Where the arrival times never go back, neither do the stamps.
proof fn lemma_received_sorted(events: Seq<Event>)
    requires
        arrivals_in_order(events),
    ensures
        forall|i: int, j: int|
            0 <= i < j < received(events).len() ==> (#[trigger] received(events)[i]).stamp <= (
            #[trigger] received(events)[j]).stamp,
    decreases events.len(),
{
    if events.len() > 0 {
        let fewer = events.drop_last();
        assert forall|i: int, j: int| 0 <= i < j < fewer.len() implies (
        #[trigger] fewer[i] matches Event::Received { now: a, .. } ==> (
        #[trigger] fewer[j] matches Event::Received { now: b, .. } ==> a <= b)) by {
            assert(fewer[i] == events[i] && fewer[j] == events[j]);
        }
        lemma_received_sorted(fewer);
        let all = received(events);
        assert forall|i: int, j: int| 0 <= i < j < all.len() implies (#[trigger] all[i]).stamp <= (
        #[trigger] all[j]).stamp by {
            if j >= received(fewer).len() {
                let at = lemma_received_from(fewer, i);
                assert(events[at] == fewer[at]);
                assert(events[events.len() - 1] == events.last());
            } else {
                assert(all[i] == received(fewer)[i] && all[j] == received(fewer)[j]);
            }
        }
    }
}

/// Nothing is held back longer than it has to be: with arrivals in order, the thread goes on from
/// what it holds back only when none of that is due.
pub proof fn law_no_due_batch_is_left(start: ThreadState, events: Seq<Event>, now: u128)
    requires
        start.buffered.len() == 0,
        accepted(start, events),
        arrivals_in_order(events),
        events.len() > 0,
        events.last() == (Event::ClockRead { now }),
        run(start, events).1.last() is Measure,
    ensures
        forall|i: int|
            0 <= i < run(start, events).0.buffered.len() ==> !(#[trigger] run(
                start,
                events,
            ).0.buffered[i]).due(now, start.settings.packet_delay_ms),
        forall|i: int|
            0 <= i < run(start, events).0.buffered.len() ==> now < (#[trigger] run(
                start,
                events,
            ).0.buffered[i]).stamp + start.settings.packet_delay_ms * 1_000_000,
{
    let (end, actions) = run(start, events);
    let fewer = events.drop_last();
    let (state, before) = run(start, fewer);
    lemma_run_len(start, fewer);
    assert(actions.last() == state.next(events.last()).1);
    assert(!state.front_due(now));
    law_every_batch_is_delivered_once_in_order(start, events);
    lemma_received_sorted(events);
    let all = received(events);
    let n = delivered(actions).len();
    assert(start.buffered + all =~= all);
    assert(delivered(actions) + end.buffered == all);
    assert forall|i: int| 0 <= i < end.buffered.len() implies !(#[trigger] end.buffered[i]).due(
        now,
        start.settings.packet_delay_ms,
    ) by {
        assert(end.buffered[0] == (delivered(actions) + end.buffered)[n as int]);
        assert(end.buffered[i] == (delivered(actions) + end.buffered)[n + i]);
        assert(end.buffered[0].stamp <= end.buffered[i].stamp);
    }
}

/// Every batch that arrives goes to the block engine as it came, in order, to expire after the time
/// for which it is held back from the validator. If that is disabled, none does.
pub proof fn law_every_batch_is_forwarded(start: ThreadState, events: Seq<Event>)
    requires
        accepted(start, events),
    ensures
        forwarded(run(start, events).1) == (if start.settings.disable_mempool {
            Seq::empty()
        } else {
            received(events).map_values(
                |batch: RelayerPacketBatches|
                    (batch.banking_packet_batch, start.settings.packet_delay_ms),
            )
        }),
    decreases events.len(),
{
    let delay = start.settings.packet_delay_ms;
    let batch_of = |batch: RelayerPacketBatches| (batch.banking_packet_batch, delay);
    let (end, actions) = run(start, events);
    if events.len() == 0 {
        assert(received(events).map_values(batch_of) =~= Seq::empty());
    } else {
        let fewer = events.drop_last();
        law_every_batch_is_forwarded(start, fewer);
        lemma_run_len(start, fewer);
        let (state, before) = run(start, fewer);
        assert(actions.drop_last() =~= before);
        assert(actions.last() == state.next(events.last()).1);
        assert(received(events).map_values(batch_of) =~= (match events.last() {
            Event::Received { banking_packet_batch, .. } => received(fewer).map_values(
                batch_of,
            ).push((banking_packet_batch, delay)),
            _ => received(fewer).map_values(batch_of),
        }));
    }
}

/// Without a mempool, nothing is counted as sent to the block engine or dropped on the way.
pub proof fn law_disabled_mempool_counts_nothing(start: ThreadState, events: Seq<Event>)
    requires
        start.inv(),
        accepted(start, events),
        start.settings.disable_mempool,
        start.metrics.num_be_packets_forwarded == 0,
        start.metrics.num_be_packets_dropped == 0,
        start.metrics.num_be_sender_full == 0,
    ensures
        run(start, events).0.metrics.num_be_packets_forwarded == 0,
        run(start, events).0.metrics.num_be_packets_dropped == 0,
        run(start, events).0.metrics.num_be_sender_full == 0,
    decreases events.len(),
{
    if events.len() > 0 {
        let fewer = events.drop_last();
        law_disabled_mempool_counts_nothing(start, fewer);
        law_inv_holds_throughout(start, fewer);
        lemma_run_len(start, fewer);
    }
}

/// The packets that the batches hold together.
pub open spec fn packets_in(batches: Seq<RelayerPacketBatches>) -> nat
    decreases batches.len(),
{
    if batches.len() == 0 {
        0
    } else {
        packets_in(batches.drop_last()) + batches.last().num_packets()
    }
}

/// What has been reported: batches received, packets received, and packets handed on to the
/// validator.
pub open spec fn reported(actions: Seq<Action>) -> (nat, nat, nat)
    decreases actions.len(),
{
    if actions.len() == 0 {
        (0, 0, 0)
    } else {
        let before = reported(actions.drop_last());
        match actions.last() {
            Action::Report(metrics) => (
                before.0 + metrics.num_batches_received as nat,
                before.1 + metrics.num_packets_received as nat,
                before.2 + metrics.num_relayer_packets_forwarded as nat,
            ),
            _ => before,
        }
    }
}

/// What has been counted and not yet reported.
pub open spec fn unreported(state: ThreadState) -> (nat, nat, nat) {
    if state.phase is Reporting {
        (0, 0, 0)
    } else {
        (
            state.metrics.num_batches_received as nat,
            state.metrics.num_packets_received as nat,
            state.metrics.num_relayer_packets_forwarded as nat,
        )
    }
}

/// The reports together count every batch and every packet once: what has been reported and what
/// has not yet, less what was counted at first, is what arrived and what was handed on.
pub proof fn law_reports_count_everything_once(start: ThreadState, events: Seq<Event>)
    requires
        start.inv(),
        accepted(start, events),
    ensures
        ({
            let (end, actions) = run(start, events);
            &&& reported(actions).0 + unreported(end).0 == unreported(start).0 + received(
                events,
            ).len()
            &&& reported(actions).1 + unreported(end).1 == unreported(start).1 + packets_in(
                received(events),
            )
            &&& reported(actions).2 + unreported(end).2 == unreported(start).2 + packets_in(
                delivered(actions),
            )
        }),
    decreases events.len(),
{
    if events.len() > 0 {
        let fewer = events.drop_last();
        law_reports_count_everything_once(start, fewer);
        law_inv_holds_throughout(start, fewer);
        let (state, before) = run(start, fewer);
        let (end, actions) = run(start, events);
        assert(actions.drop_last() =~= before);
        assert(actions.last() == state.next(events.last()).1);
        match events.last() {
            Event::Received { now, banking_packet_batch } => {
                let batch = RelayerPacketBatches { stamp: now, banking_packet_batch };
                assert(received(fewer).push(batch).drop_last() =~= received(fewer));
            },
            Event::ClockRead { now } => {
                if state.front_due(now) {
                    let front = state.buffered[0];
                    assert(delivered(before).push(front).drop_last() =~= delivered(before));
                }
            },
            _ => {},
        }
    }
}

/// A thread reports only when the interval has passed since its counters were last reset, and
/// reports what it has counted.
pub proof fn law_reports_keep_the_interval(state: ThreadState, event: Event)
    requires
        state.accepts(event),
    ensures
        state.next(event).1 matches Action::Report(metrics) ==> {
            &&& metrics == state.metrics
            &&& event matches Event::Polled { now, .. }
            &&& elapsed(state.last_metrics_upload, now) >= METRICS_INTERVAL_NANOS
        },
{
}

/// The phase of a thread that waits for this action's outcome.
pub open spec fn waits_for(phase: Phase, action: Action) -> bool {
    match action {
        Action::Poll => phase is Polling,
        Action::Report(_) => phase is Reporting,
        Action::Receive => phase is Receiving,
        Action::Forward { .. } => phase is Forwarding,
        Action::ReadClock => phase is Draining,
        Action::Deliver(_) => phase is Delivering,
        Action::Measure => phase is Measuring,
        Action::Stop => phase is Stopped,
        Action::Fail(_) => phase is Stopped,
    }
}

/// A thread always waits for the outcome of the action that it last asked for.
pub proof fn law_thread_waits_for_its_action(state: ThreadState, event: Event)
    requires
        state.accepts(event),
    ensures
        waits_for(state.next(event).0.phase, state.next(event).1),
{
}

/// A thread exits exactly if it is told to, and gives up exactly if its receiver is disconnected,
/// the block engine's queue is closed, or a batch cannot be handed on.
pub proof fn law_thread_stops_only_for_cause(state: ThreadState, event: Event)
    requires
        state.accepts(event),
    ensures
        state.next(event).1 is Stop <==> (event matches Event::Polled { exit, .. } && exit),
        state.next(event).1 == Action::Fail(Failure::ReceiverDisconnected)
            <==> event is ReceiverDisconnected,
        state.next(event).1 == Action::Fail(Failure::BlockEngineClosed) <==> event
            == Event::Forwarded(BlockEngineSend::Closed),
        state.next(event).1 == Action::Fail(Failure::DeliveryFailed) <==> event is DeliveryFailed,
        state.next(event).0.phase is Stopped <==> state.next(event).1 is Stop || state.next(
            event,
        ).1 is Fail,
{
}

/// A thread that has stopped accepts nothing more.
pub proof fn law_stopped_thread_stays_stopped(state: ThreadState, event: Event)
    requires
        state.phase is Stopped,
    ensures
        !state.accepts(event),
{
}

/// An event that says that a batch was filtered out whole.
pub open spec fn is_filtered(event: Event) -> bool {
    event == Event::Forwarded(BlockEngineSend::Filtered)
}

/// Everything received was sent to the block engine, dropped at a full queue, or is on its way.
pub open spec fn all_accounted_for(state: ThreadState) -> bool {
    state.metrics.num_be_packets_forwarded + state.metrics.num_be_packets_dropped
        + state.in_flight() == state.metrics.num_packets_received
}

/// With a mempool, and as long as no batch is filtered out, every packet received is accounted for
/// until the thread stops.
pub proof fn law_unfiltered_packets_are_accounted_for(start: ThreadState, events: Seq<Event>)
    requires
        start.inv(),
        accepted(start, events),
        !start.settings.disable_mempool,
        all_accounted_for(start),
        forall|i: int| 0 <= i < events.len() ==> !is_filtered(#[trigger] events[i]),
    ensures
        !(run(start, events).0.phase is Stopped) ==> all_accounted_for(run(start, events).0),
    decreases events.len(),
{
    if events.len() > 0 {
        let fewer = events.drop_last();
        assert forall|i: int| 0 <= i < fewer.len() implies !is_filtered(#[trigger] fewer[i]) by {
            assert(fewer[i] == events[i]);
        }
        law_unfiltered_packets_are_accounted_for(start, fewer);
        law_inv_holds_throughout(start, fewer);
        lemma_run_len(start, fewer);
        assert(!is_filtered(events[events.len() - 1]));
    }
}

/// With a mempool, and as long as no batch is filtered out, each report says that as many packets
/// were sent or dropped as were received.
pub proof fn law_unfiltered_reports_balance(start: ThreadState, events: Seq<Event>, i: int)
    requires
        start.inv(),
        accepted(start, events),
        !start.settings.disable_mempool,
        all_accounted_for(start),
        forall|j: int| 0 <= j < events.len() ==> !is_filtered(#[trigger] events[j]),
        0 <= i < events.len(),
    ensures
        run(start, events).1[i] matches Action::Report(metrics) ==> metrics.num_be_packets_forwarded
            + metrics.num_be_packets_dropped == metrics.num_packets_received,
    decreases events.len(),
{
    let fewer = events.drop_last();
    assert forall|j: int| 0 <= j < fewer.len() implies !is_filtered(#[trigger] fewer[j]) by {
        assert(fewer[j] == events[j]);
    }
    lemma_run_len(start, fewer);
    if i < fewer.len() {
        law_unfiltered_reports_balance(start, fewer, i);
        assert(run(start, events).1[i] == run(start, fewer).1[i]);
    } else {
        law_unfiltered_packets_are_accounted_for(start, fewer);
    }
}

/// Packets are counted as dropped only if the block engine's queue is counted as full.
pub open spec fn drops_have_cause(metrics: ForwarderMetrics) -> bool {
    metrics.num_be_packets_dropped > 0 ==> metrics.num_be_sender_full > 0
}

/// Nothing is dropped without a full queue.
pub proof fn law_no_drop_without_a_full_queue(start: ThreadState, events: Seq<Event>)
    requires
        start.inv(),
        accepted(start, events),
        drops_have_cause(start.metrics),
    ensures
        drops_have_cause(run(start, events).0.metrics),
    decreases events.len(),
{
    if events.len() > 0 {
        let fewer = events.drop_last();
        law_no_drop_without_a_full_queue(start, fewer);
        law_inv_holds_throughout(start, fewer);
    }
}

/// What one measurement found: the number of batches held back, the buffer's capacity, and the
/// lengths of the receiver's and of the block engine's queue.
pub struct Measurement {
    pub buffered_len: usize,
    pub buffered_capacity: usize,
    pub receiver_len: usize,
    pub sender_len: usize,
}

/// The measurements since the counters were last reset.
pub open spec fn interval_measurements(start: ThreadState, events: Seq<Event>) -> Seq<Measurement>
    decreases events.len(),
{
    if events.len() == 0 {
        Seq::empty()
    } else {
        let fewer = events.drop_last();
        match events.last() {
            Event::Reported { .. } => Seq::empty(),
            Event::Measured { buffered_capacity, verified_receiver_len, block_engine_capacity } =>
            interval_measurements(start, fewer).push(
                Measurement {
                    buffered_len: run(start, fewer).0.buffered.len() as usize,
                    buffered_capacity,
                    receiver_len: verified_receiver_len,
                    sender_len: (BLOCK_ENGINE_FORWARDER_QUEUE_CAPACITY
                        - block_engine_capacity) as usize,
                },
            ),
            _ => interval_measurements(start, fewer),
        }
    }
}

/// The buffer's capacity when the counters were last reset.
pub open spec fn interval_capacity(start: ThreadState, events: Seq<Event>) -> usize
    decreases events.len(),
{
    if events.len() == 0 {
        start.metrics.buffered_packet_batches_capacity
    } else {
        match events.last() {
            Event::Reported { buffered_capacity, .. } => buffered_capacity,
            _ => interval_capacity(start, events.drop_last()),
        }
    }
}

/// `mark` is the largest of `floor` and of the values that `of` picks from the measurements.
pub open spec fn is_peak(
    mark: usize,
    floor: usize,
    measurements: Seq<Measurement>,
    of: spec_fn(Measurement) -> usize,
) -> bool {
    &&& mark >= floor
    &&& forall|k: int| 0 <= k < measurements.len() ==> mark >= of(#[trigger] measurements[k])
    &&& mark == floor || exists|k: int|
        0 <= k < measurements.len() && mark == of(#[trigger] measurements[k])
}

/// One more measurement raises the peak to it, if it is higher.
proof fn lemma_peak_push(
    mark: usize,
    floor: usize,
    measurements: Seq<Measurement>,
    of: spec_fn(Measurement) -> usize,
    measurement: Measurement,
)
    requires
        is_peak(mark, floor, measurements, of),
    ensures
        is_peak(larger(mark, of(measurement)), floor, measurements.push(measurement), of),
{
    let all = measurements.push(measurement);
    let n = measurements.len() as int;
    assert(all[n] == measurement);
    if mark != floor {
        let k = choose|k: int|
            0 <= k < measurements.len() && mark == of(#[trigger] measurements[k]);
        assert(all[k] == measurements[k]);
    }
    assert forall|k: int| 0 <= k < all.len() implies larger(mark, of(measurement)) >= of(
        #[trigger] all[k],
    ) by {
        if k < n {
            assert(all[k] == measurements[k]);
        }
    }
}

/// The high water marks are those of the interval since the counters were last reset: each length
/// is the largest that was measured in it, or zero, and the buffer's capacity the largest that it
/// had then or was measured since.
pub proof fn law_marks_are_those_of_the_interval(start: ThreadState, events: Seq<Event>)
    requires
        start.metrics.buffered_packet_batches_max_len == 0,
        start.metrics.verified_receiver_max_len == 0,
        start.metrics.block_engine_sender_max_len == 0,
    ensures
        ({
            let metrics = run(start, events).0.metrics;
            let measured = interval_measurements(start, events);
            &&& is_peak(
                metrics.buffered_packet_batches_max_len,
                0,
                measured,
                |m: Measurement| m.buffered_len,
            )
            &&& is_peak(
                metrics.buffered_packet_batches_capacity,
                interval_capacity(start, events),
                measured,
                |m: Measurement| m.buffered_capacity,
            )
            &&& is_peak(
                metrics.verified_receiver_max_len,
                0,
                measured,
                |m: Measurement| m.receiver_len,
            )
            &&& is_peak(
                metrics.block_engine_sender_max_len,
                0,
                measured,
                |m: Measurement| m.sender_len,
            )
        }),
    decreases events.len(),
{
    if events.len() > 0 {
        let fewer = events.drop_last();
        law_marks_are_those_of_the_interval(start, fewer);
        let metrics = run(start, fewer).0.metrics;
        let before = interval_measurements(start, fewer);
        let capacity = interval_capacity(start, fewer);
        if let Event::Measured { .. } = events.last() {
            let measurement = interval_measurements(start, events).last();
            lemma_peak_push(
                metrics.buffered_packet_batches_max_len,
                0,
                before,
                |m: Measurement| m.buffered_len,
                measurement,
            );
            lemma_peak_push(
                metrics.buffered_packet_batches_capacity,
                capacity,
                before,
                |m: Measurement| m.buffered_capacity,
                measurement,
            );
            lemma_peak_push(
                metrics.verified_receiver_max_len,
                0,
                before,
                |m: Measurement| m.receiver_len,
                measurement,
            );
            lemma_peak_push(
                metrics.block_engine_sender_max_len,
                0,
                before,
                |m: Measurement| m.sender_len,
                measurement,
            );
        }
    }
}

/// After a batch was taken in, and until the thread polls again, it does not wait for another.
proof fn lemma_no_receiving_before_poll(start: ThreadState, events: Seq<Event>, i: int)
    requires
        accepted(start, events),
        0 <= i < events.len(),
        events[i] is Received,
        forall|k: int| i < k < events.len() ==> !(#[trigger] events[k] is Polled),
    ensures
        !(run(start, events).0.phase is Receiving),
        !(run(start, events).0.phase is Reporting),
    decreases events.len(),
{
    let fewer = events.drop_last();
    if i < fewer.len() {
        assert(fewer[i] == events[i]);
        assert forall|k: int| i < k < fewer.len() implies !(#[trigger] fewer[k] is Polled) by {
            assert(fewer[k] == events[k]);
        }
        lemma_no_receiving_before_poll(start, fewer, i);
        assert(!(events[events.len() - 1] is Polled));
    }
}

/// A thread takes in at most one batch between two polls: between two arrivals it sees whether it is
/// to exit.
pub proof fn law_one_batch_between_polls(start: ThreadState, events: Seq<Event>, i: int, j: int)
    requires
        accepted(start, events),
        0 <= i < j < events.len(),
        events[i] is Received,
        events[j] is Received,
    ensures
        exists|k: int| i < k < j && #[trigger] events[k] is Polled,
    decreases events.len(),
{
    let fewer = events.drop_last();
    if j < fewer.len() {
        assert(fewer[i] == events[i] && fewer[j] == events[j]);
        law_one_batch_between_polls(start, fewer, i, j);
        let k = choose|k: int| i < k < j && #[trigger] fewer[k] is Polled;
        assert(events[k] == fewer[k]);
    } else if !(exists|k: int| i < k < j && #[trigger] events[k] is Polled) {
        assert(fewer[i] == events[i]);
        assert forall|k: int| i < k < fewer.len() implies !(#[trigger] fewer[k] is Polled) by {
            assert(fewer[k] == events[k]);
        }
        lemma_no_receiving_before_poll(start, fewer, i);
        assert(events.last() == events[j]);
    }
}

/// On a poll, a thread exits exactly if it is told to. Otherwise it reports what it has counted
/// exactly if a second, of a billion nanoseconds, has passed since its counters were last reset,
/// whatever else it holds, and waits for a batch if not. Nothing else changes.
pub proof fn law_poll_exits_reports_or_receives(state: ThreadState, exit: bool, now: u128)
    ensures
        ({
            let (next, action) = state.next(Event::Polled { exit, now });
            &&& action is Stop <==> exit
            &&& action == Action::Report(state.metrics) <==> !exit && now
                >= state.last_metrics_upload + 1_000_000_000
            &&& action is Receive <==> !exit && now < state.last_metrics_upload + 1_000_000_000
            &&& next == (ThreadState { phase: next.phase, ..state })
        }),
{
}

/// After a report, the counters and the lengths' marks are zero, the capacities are those that were
/// read, zero for a receiver without a bound, and the next interval starts at the time that was
/// read. What is held back stays, and the thread waits for a batch.
pub proof fn law_report_resets_the_counters(
    state: ThreadState,
    now: u128,
    buffered_capacity: usize,
    verified_receiver_capacity: Option<usize>,
    block_engine_capacity: usize,
)
    ensures
        ({
            let (next, action) = state.next(
                Event::Reported {
                    now,
                    buffered_capacity,
                    verified_receiver_capacity,
                    block_engine_capacity,
                },
            );
            &&& action is Receive
            &&& next.last_metrics_upload == now
            &&& next.buffered == state.buffered
            &&& next.settings == state.settings
            &&& next.metrics.num_batches_received == 0
            &&& next.metrics.num_packets_received == 0
            &&& next.metrics.num_be_packets_forwarded == 0
            &&& next.metrics.num_be_packets_dropped == 0
            &&& next.metrics.num_be_sender_full == 0
            &&& next.metrics.num_relayer_packets_forwarded == 0
            &&& next.metrics.buffered_packet_batches_max_len == 0
            &&& next.metrics.verified_receiver_max_len == 0
            &&& next.metrics.block_engine_sender_max_len == 0
            &&& next.metrics.buffered_packet_batches_capacity == buffered_capacity
            &&& verified_receiver_capacity matches Some(capacity)
                ==> next.metrics.verified_receiver_capacity == capacity
            &&& verified_receiver_capacity is None ==> next.metrics.verified_receiver_capacity == 0
            &&& next.metrics.block_engine_sender_capacity == block_engine_capacity
        }),
{
}

/// The capacity of a queue is what it has, or zero if it has no bound.
pub proof fn law_capacity_is_kept(capacity: usize)
    ensures
        capacity_or_zero(Some(capacity)) == capacity,
        capacity_or_zero(None) == 0,
{
}

/// A batch that arrives is held back last, with the time of its arrival, and counted once with all
/// its packets. It goes to the block engine as it is at once, to expire after the configured delay,
/// exactly if the mempool is not disabled. Nothing else changes.
pub proof fn law_arrival_is_held_counted_and_forwarded(
    state: ThreadState,
    now: u128,
    batch: BankingPacketBatch,
)
    requires
        state.accepts(Event::Received { now, banking_packet_batch: batch }),
    ensures
        ({
            let (next, action) = state.next(Event::Received { now, banking_packet_batch: batch });
            let n = state.buffered.len();
            &&& next.buffered.len() == n + 1
            &&& forall|i: int| 0 <= i < n ==> #[trigger] next.buffered[i] == state.buffered[i]
            &&& next.buffered[n as int].stamp == now
            &&& next.buffered[n as int].banking_packet_batch == batch
            &&& next.metrics.num_batches_received - state.metrics.num_batches_received == 1
            &&& next.metrics.num_packets_received - state.metrics.num_packets_received
                == total_packets(contents(batch.0@))
            &&& state.metrics == (ForwarderMetrics {
                num_batches_received: state.metrics.num_batches_received,
                num_packets_received: state.metrics.num_packets_received,
                ..next.metrics
            })
            &&& next.settings == state.settings
            &&& next.last_metrics_upload == state.last_metrics_upload
            &&& action == (Action::Forward {
                banking_packet_batch: batch,
                expiration: state.settings.packet_delay_ms,
            }) <==> !state.settings.disable_mempool
            &&& action is ReadClock <==> state.settings.disable_mempool
            &&& next.phase matches Phase::Forwarding { num_packets } ==> num_packets
                == total_packets(contents(batch.0@))
        }),
{
}

/// What became of a batch on its way to the block engine is counted once, with all the packets that
/// were received of it. Nothing else changes, and the thread goes on to what it holds back, unless
/// the queue is closed.
pub proof fn law_send_outcome_is_counted(
    state: ThreadState,
    num_packets: u64,
    send: BlockEngineSend,
)
    requires
        state.inv(),
        state.phase == (Phase::Forwarding { num_packets }),
    ensures
        ({
            let (next, action) = state.next(Event::Forwarded(send));
            &&& next.metrics.num_be_packets_forwarded - state.metrics.num_be_packets_forwarded == (
            if send is Sent {
                num_packets as int
            } else {
                0
            })
            &&& next.metrics.num_be_packets_dropped - state.metrics.num_be_packets_dropped == (
            if send is Full {
                num_packets as int
            } else {
                0
            })
            &&& next.metrics.num_be_sender_full - state.metrics.num_be_sender_full == (
            if send is Full {
                1int
            } else {
                0
            })
            &&& state.metrics == (ForwarderMetrics {
                num_be_packets_forwarded: state.metrics.num_be_packets_forwarded,
                num_be_packets_dropped: state.metrics.num_be_packets_dropped,
                num_be_sender_full: state.metrics.num_be_sender_full,
                ..next.metrics
            })
            &&& next == (ThreadState { phase: next.phase, metrics: next.metrics, ..state })
            &&& action is Fail <==> send is Closed
            &&& action is ReadClock <==> !(send is Closed) && state.buffered.len() > 0
            &&& action is Measure <==> !(send is Closed) && state.buffered.len() == 0
        }),
{
}

/// At a clock reading, the oldest batch is handed on exactly if the delay, in milliseconds of a
/// million nanoseconds each, has passed since its arrival; without a delay it is handed on at once.
/// Then that batch, and no other, is no longer held back, and its packets are counted. If it is not
/// handed on, nothing is, and nothing changes.
pub proof fn law_oldest_batch_is_handed_on_when_due(state: ThreadState, now: u128)
    requires
        state.inv(),
        state.accepts(Event::ClockRead { now }),
    ensures
        ({
            let (next, action) = state.next(Event::ClockRead { now });
            let oldest = state.buffered[0];
            let passed = state.settings.packet_delay_ms == 0 || now >= oldest.stamp
                + state.settings.packet_delay_ms * 1_000_000;
            &&& state.buffered.len() > 0
            &&& action == Action::Deliver(oldest) <==> passed
            &&& action is Measure <==> !passed
            &&& passed ==> {
                &&& state.buffered == seq![oldest] + next.buffered
                &&& next.metrics.num_relayer_packets_forwarded
                    - state.metrics.num_relayer_packets_forwarded == total_packets(
                    contents(oldest.banking_packet_batch.0@),
                )
                &&& state.metrics == (ForwarderMetrics {
                    num_relayer_packets_forwarded: state.metrics.num_relayer_packets_forwarded,
                    ..next.metrics
                })
            }
            &&& !passed ==> next.buffered == state.buffered && next.metrics == state.metrics
            &&& next.settings == state.settings
            &&& next.last_metrics_upload == state.last_metrics_upload
        }),
{
    let (next, action) = state.next(Event::ClockRead { now });
    if action is Deliver {
        assert(state.buffered =~= seq![state.buffered[0]] + next.buffered);
    }
}

/// After a wait without a batch, and after a batch was handed on, the thread reads the clock if it
/// holds anything back, and measures its queues if not. Nothing else changes.
pub proof fn law_thread_goes_on_to_what_it_holds(state: ThreadState, event: Event)
    requires
        event is ReceiveTimedOut || event is Delivered,
    ensures
        ({
            let (next, action) = state.next(event);
            &&& action is ReadClock <==> state.buffered.len() > 0
            &&& action is Measure <==> state.buffered.len() == 0
            &&& next == (ThreadState { phase: next.phase, ..state })
        }),
{
}

/// A measurement raises each mark to what was measured, if that is higher: the number of batches
/// held back, the buffer's capacity, the receiver's length, and how many of the five thousand places
/// of the block engine's queue are taken. Nothing else changes, and the thread polls again.
pub proof fn law_measurement_raises_the_marks(
    state: ThreadState,
    buffered_capacity: usize,
    verified_receiver_len: usize,
    block_engine_capacity: usize,
)
    requires
        state.buffered.len() <= usize::MAX,
        state.accepts(
            Event::Measured { buffered_capacity, verified_receiver_len, block_engine_capacity },
        ),
    ensures
        ({
            let (next, action) = state.next(
                Event::Measured { buffered_capacity, verified_receiver_len, block_engine_capacity },
            );
            let old = state.metrics;
            let new = next.metrics;
            &&& action is Poll
            &&& is_larger_of(
                new.buffered_packet_batches_max_len,
                old.buffered_packet_batches_max_len,
                state.buffered.len() as usize,
            )
            &&& is_larger_of(
                new.buffered_packet_batches_capacity,
                old.buffered_packet_batches_capacity,
                buffered_capacity,
            )
            &&& is_larger_of(
                new.verified_receiver_max_len,
                old.verified_receiver_max_len,
                verified_receiver_len,
            )
            &&& block_engine_capacity <= 5_000 && is_larger_of(
                new.block_engine_sender_max_len,
                old.block_engine_sender_max_len,
                (5_000 - block_engine_capacity) as usize,
            )
            &&& old == (ForwarderMetrics {
                buffered_packet_batches_max_len: old.buffered_packet_batches_max_len,
                buffered_packet_batches_capacity: old.buffered_packet_batches_capacity,
                verified_receiver_max_len: old.verified_receiver_max_len,
                block_engine_sender_max_len: old.block_engine_sender_max_len,
                ..new
            })
            &&& next == (ThreadState { phase: next.phase, metrics: new, ..state })
        }),
{
}

/// A thread that gives up changes nothing but that it has stopped.
pub proof fn law_giving_up_keeps_everything(state: ThreadState, event: Event)
    requires
        event is ReceiverDisconnected || event is DeliveryFailed || event == Event::Forwarded(
            BlockEngineSend::Closed,
        ),
    ensures
        state.next(event).1 is Fail,
        state.next(event).0 == (ThreadState { phase: Phase::Stopped, ..state }),
{
}

/// A thread accepts every outcome of what it asked for, and nothing else, as long as what is to be
/// counted fits in a counter and the block engine's queue has no more than its five thousand places.
pub proof fn law_every_outcome_is_accepted_in_turn(state: ThreadState, event: Event)
    requires
        state.inv(),
    ensures
        event is Polled ==> (state.accepts(event) <==> state.phase is Polling),
        event is Reported ==> (state.accepts(event) <==> state.phase is Reporting),
        event is ReceiveTimedOut || event is ReceiverDisconnected ==> (state.accepts(event)
            <==> state.phase is Receiving),
        event matches Event::Received { banking_packet_batch, .. } ==> (state.accepts(event)
            <==> state.phase is Receiving && state.metrics.num_batches_received + 1 <= u64::MAX
            && state.metrics.num_packets_received + total_packets(
            contents(banking_packet_batch.0@),
        ) <= u64::MAX),
        event is Forwarded ==> (state.accepts(event) <==> state.phase is Forwarding),
        event matches Event::ClockRead { now } ==> (state.accepts(event) <==> state.phase is Draining
            && ({
            ||| state.settings.packet_delay_ms > 0 && now < state.buffered[0].stamp
                + state.settings.packet_delay_ms * 1_000_000
            ||| state.metrics.num_relayer_packets_forwarded + total_packets(
                contents(state.buffered[0].banking_packet_batch.0@),
            ) <= u64::MAX
        })),
        event is Delivered || event is DeliveryFailed ==> (state.accepts(event)
            <==> state.phase is Delivering),
        event matches Event::Measured { block_engine_capacity, .. } ==> (state.accepts(event)
            <==> state.phase is Measuring && block_engine_capacity <= 5_000),
{
}

/// The thread panics with these words.
pub proof fn law_failures_say_what_failed()
    ensures
        Failure::ReceiverDisconnected.text() == "packet receiver disconnected"@,
        Failure::BlockEngineClosed.text() == "error sending packet batch to block engine handler"@,
        Failure::DeliveryFailed.text() == "exiting forwarding delayed packets"@,
{
}

/// The sizes and times that threads are run with.
pub proof fn law_sizes_and_times()
    ensures
        BLOCK_ENGINE_FORWARDER_QUEUE_CAPACITY == 5_000,
        BUFFERED_PACKET_BATCHES_CAPACITY == 100_000,
        SLEEP_DURATION_MS == 5,
        PACKET_DATA_SIZE == 1280 - 40 - 8,
{
}

/// How many batches met the outcome `send` on their way to the block engine.
pub open spec fn outcomes(events: Seq<Event>, send: BlockEngineSend) -> nat
    decreases events.len(),
{
    if events.len() == 0 {
        0
    } else {
        outcomes(events.drop_last(), send) + (if events.last() == Event::Forwarded(send) {
            1nat
        } else {
            0nat
        })
    }
}

/// How many packets were in the batches that met the outcome `send`. The batch is the one that
/// arrived just before.
pub open spec fn outcome_packets(events: Seq<Event>, send: BlockEngineSend) -> nat
    decreases events.len(),
{
    if events.len() < 2 {
        0
    } else {
        outcome_packets(events.drop_last(), send) + (if events.last() == Event::Forwarded(send) {
            match events[events.len() - 2] {
                Event::Received { banking_packet_batch, .. } => total_packets(
                    contents(banking_packet_batch.0@),
                ),
                _ => 0,
            }
        } else {
            0
        })
    }
}

/// What has been reported of the block engine: packets forwarded, packets dropped, and full queues
/// met.
pub open spec fn reported_sends(actions: Seq<Action>) -> (nat, nat, nat)
    decreases actions.len(),
{
    if actions.len() == 0 {
        (0, 0, 0)
    } else {
        let before = reported_sends(actions.drop_last());
        match actions.last() {
            Action::Report(metrics) => (
                before.0 + metrics.num_be_packets_forwarded as nat,
                before.1 + metrics.num_be_packets_dropped as nat,
                before.2 + metrics.num_be_sender_full as nat,
            ),
            _ => before,
        }
    }
}

/// What has been counted of the block engine and not yet reported.
pub open spec fn unreported_sends(state: ThreadState) -> (nat, nat, nat) {
    if state.phase is Reporting {
        (0, 0, 0)
    } else {
        (
            state.metrics.num_be_packets_forwarded as nat,
            state.metrics.num_be_packets_dropped as nat,
            state.metrics.num_be_sender_full as nat,
        )
    }
}

/// A thread waits for what becomes of a batch only just after that batch arrived, and then has the
/// batch's packets in flight.
proof fn lemma_forwarding_follows_arrival(start: ThreadState, events: Seq<Event>)
    requires
        accepted(start, events),
        events.len() > 0,
        run(start, events).0.phase is Forwarding,
    ensures
        events.last() matches Event::Received { banking_packet_batch, .. } && run(
            start,
            events,
        ).0.in_flight() == total_packets(contents(banking_packet_batch.0@)),
{
}

/// Over a whole run, the reports and what is not yet reported count every send to the block engine
/// once: as many full queues as batches met one, as many dropped packets as were in just those
/// batches, and as many forwarded packets as were in the batches that the queue took.
pub proof fn law_sends_are_counted_once(start: ThreadState, events: Seq<Event>)
    requires
        start.inv(),
        accepted(start, events),
        !(start.phase is Forwarding),
    ensures
        ({
            let (end, actions) = run(start, events);
            &&& reported_sends(actions).0 + unreported_sends(end).0 == unreported_sends(start).0
                + outcome_packets(events, BlockEngineSend::Sent)
            &&& reported_sends(actions).1 + unreported_sends(end).1 == unreported_sends(start).1
                + outcome_packets(events, BlockEngineSend::Full)
            &&& reported_sends(actions).2 + unreported_sends(end).2 == unreported_sends(start).2
                + outcomes(events, BlockEngineSend::Full)
        }),
    decreases events.len(),
{
    if events.len() > 0 {
        let fewer = events.drop_last();
        law_sends_are_counted_once(start, fewer);
        law_inv_holds_throughout(start, fewer);
        let (state, before) = run(start, fewer);
        let (end, actions) = run(start, events);
        assert(actions.drop_last() =~= before);
        assert(actions.last() == state.next(events.last()).1);
        if let Event::Forwarded(_) = events.last() {
            assert(state.phase is Forwarding);
            if fewer.len() > 0 {
                lemma_forwarding_follows_arrival(start, fewer);
                assert(fewer.last() == events[events.len() - 2]);
            }
        }
        if fewer.len() == 0 {
            assert(outcome_packets(fewer, BlockEngineSend::Sent) == 0);
            assert(outcome_packets(fewer, BlockEngineSend::Full) == 0);
        }
    }
}

} // verus!
