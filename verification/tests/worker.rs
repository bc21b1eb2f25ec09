use std::sync::Arc;

use forwarder::metrics::{BlockEngineSend, ForwarderMetrics};
use forwarder::packet::{BankingPacketBatch, Packet, PacketBatch};
use forwarder::worker::{
    Action, Event, Failure, ForwarderThread, Settings, BLOCK_ENGINE_FORWARDER_QUEUE_CAPACITY,
    BUFFERED_PACKET_BATCHES_CAPACITY,
};

const MILLI: u128 = 1_000_000;

fn batch_of(len: usize) -> BankingPacketBatch {
    Arc::new((
        vec![PacketBatch::new(vec![Packet::default(); len]), PacketBatch::new(vec![])],
        None,
    ))
}

fn thread_with(packet_delay_ms: u32, disable_mempool: bool) -> ForwarderThread {
    ForwarderThread::new(Settings { packet_delay_ms, disable_mempool }, 0, None, 5_000)
}

fn step(thread: &mut ForwarderThread, event: Event) -> Action {
    assert!(thread.can_step(&event));
    thread.step(event)
}

fn start_receiving(thread: &mut ForwarderThread, now: u128) {
    let action = step(thread, Event::Polled { exit: false, now });
    assert!(matches!(action, Action::Receive));
}

fn measured(block_engine_capacity: usize) -> Event {
    Event::Measured { buffered_capacity: 0, verified_receiver_len: 0, block_engine_capacity }
}

/// Lets the thread ask for the metrics that it has counted.
fn report(thread: &mut ForwarderThread) -> ForwarderMetrics {
    match step(thread, Event::Polled { exit: false, now: u128::MAX }) {
        Action::Report(metrics) => metrics,
        _ => panic!("no report"),
    }
}

#[test]
fn a_batch_is_forwarded_at_once_and_delivered_after_the_delay() {
    let mut thread = thread_with(100, false);
    let batch = batch_of(3);
    start_receiving(&mut thread, 0);
    let received = Event::Received { now: 7 * MILLI, banking_packet_batch: batch.clone() };
    match step(&mut thread, received) {
        Action::Forward { banking_packet_batch, expiration } => {
            assert!(Arc::ptr_eq(&banking_packet_batch, &batch));
            assert_eq!(expiration, 100);
        }
        _ => panic!("not forwarded"),
    }
    let action = step(&mut thread, Event::Forwarded(BlockEngineSend::Sent));
    assert!(matches!(action, Action::ReadClock));
    let action = step(&mut thread, Event::ClockRead { now: 107 * MILLI - 1 });
    assert!(matches!(action, Action::Measure));
    assert!(matches!(step(&mut thread, measured(4_999)), Action::Poll));
    start_receiving(&mut thread, 107 * MILLI);
    assert!(matches!(step(&mut thread, Event::ReceiveTimedOut), Action::ReadClock));
    match step(&mut thread, Event::ClockRead { now: 107 * MILLI }) {
        Action::Deliver(delivered) => {
            assert_eq!(delivered.stamp, 7 * MILLI);
            assert!(Arc::ptr_eq(&delivered.banking_packet_batch, &batch));
        }
        _ => panic!("not delivered"),
    }
    assert!(matches!(step(&mut thread, Event::Delivered), Action::Measure));
    assert!(matches!(step(&mut thread, measured(5_000)), Action::Poll));
    let metrics = report(&mut thread);
    assert_eq!(metrics.num_batches_received, 1);
    assert_eq!(metrics.num_packets_received, 3);
    assert_eq!(metrics.num_be_packets_forwarded, 3);
    assert_eq!(metrics.num_relayer_packets_forwarded, 3);
    assert_eq!(metrics.buffered_packet_batches_max_len, 1);
    assert_eq!(metrics.block_engine_sender_max_len, 1);
}

#[test]
fn batches_are_delivered_in_order() {
    let mut thread = thread_with(10, true);
    for (now, len) in [(0, 1), (MILLI, 2), (20 * MILLI, 3)] {
        start_receiving(&mut thread, 0);
        let received = Event::Received { now, banking_packet_batch: batch_of(len) };
        assert!(matches!(step(&mut thread, received), Action::ReadClock));
        assert!(matches!(step(&mut thread, Event::ClockRead { now: 0 }), Action::Measure));
        assert!(matches!(step(&mut thread, measured(0)), Action::Poll));
    }
    start_receiving(&mut thread, 0);
    step(&mut thread, Event::ReceiveTimedOut);
    let mut lens: Vec<usize> = vec![];
    while let Action::Deliver(batch) = step(&mut thread, Event::ClockRead { now: 15 * MILLI }) {
        lens.push(batch.banking_packet_batch.0[0].len());
        step(&mut thread, Event::Delivered);
    }
    assert_eq!(lens, vec![1, 2]);
}

#[test]
fn without_a_mempool_nothing_is_forwarded() {
    let mut thread = thread_with(0, true);
    start_receiving(&mut thread, 0);
    let received = Event::Received { now: 0, banking_packet_batch: batch_of(2) };
    assert!(matches!(step(&mut thread, received), Action::ReadClock));
    assert!(matches!(step(&mut thread, Event::ClockRead { now: 0 }), Action::Deliver(_)));
}

#[test]
fn a_full_queue_drops_and_goes_on() {
    let mut thread = thread_with(1, false);
    start_receiving(&mut thread, 0);
    step(&mut thread, Event::Received { now: 0, banking_packet_batch: batch_of(2) });
    let action = step(&mut thread, Event::Forwarded(BlockEngineSend::Full));
    assert!(matches!(action, Action::ReadClock));
    step(&mut thread, Event::ClockRead { now: 0 });
    step(&mut thread, measured(0));
    let metrics = report(&mut thread);
    assert_eq!(metrics.num_be_packets_dropped, 2);
    assert_eq!(metrics.num_be_sender_full, 1);
    assert_eq!(metrics.num_be_packets_forwarded, 0);
    assert_eq!(metrics.block_engine_sender_max_len, BLOCK_ENGINE_FORWARDER_QUEUE_CAPACITY);
}

#[test]
fn metrics_are_reported_every_second_and_start_anew() {
    let mut thread = thread_with(1, true);
    start_receiving(&mut thread, 999_999_999);
    assert!(matches!(step(&mut thread, Event::ReceiveTimedOut), Action::Measure));
    let action = step(
        &mut thread,
        Event::Measured { buffered_capacity: 0, verified_receiver_len: 4, block_engine_capacity: 1 },
    );
    assert!(matches!(action, Action::Poll));
    match step(&mut thread, Event::Polled { exit: false, now: 1_000_000_000 }) {
        Action::Report(metrics) => {
            assert_eq!(metrics.verified_receiver_max_len, 4);
            assert_eq!(metrics.verified_receiver_capacity, 0);
            assert_eq!(metrics.block_engine_sender_capacity, 5_000);
            assert!(metrics.buffered_packet_batches_capacity >= BUFFERED_PACKET_BATCHES_CAPACITY);
        }
        _ => panic!("no report"),
    }
    let action = step(
        &mut thread,
        Event::Reported {
            now: 1_000_000_005,
            buffered_capacity: 17,
            verified_receiver_capacity: Some(18),
            block_engine_capacity: 19,
        },
    );
    assert!(matches!(action, Action::Receive));
    step(&mut thread, Event::ReceiveTimedOut);
    step(&mut thread, measured(5_000));
    start_receiving(&mut thread, 2_000_000_004);
    step(&mut thread, Event::ReceiveTimedOut);
    step(&mut thread, measured(5_000));
    match step(&mut thread, Event::Polled { exit: false, now: 2_000_000_005 }) {
        Action::Report(metrics) => assert_eq!(metrics, ForwarderMetrics::new(17, 18, 19)),
        _ => panic!("no report"),
    }
}

#[test]
fn a_thread_exits_when_told() {
    let mut thread = thread_with(1, true);
    let action = step(&mut thread, Event::Polled { exit: true, now: u128::MAX });
    assert!(matches!(action, Action::Stop));
    assert!(!thread.can_step(&Event::Polled { exit: false, now: 0 }));
}

#[test]
fn a_disconnected_receiver_is_a_failure() {
    let mut thread = thread_with(1, true);
    start_receiving(&mut thread, 0);
    let action = step(&mut thread, Event::ReceiverDisconnected);
    assert!(matches!(action, Action::Fail(Failure::ReceiverDisconnected)));
    assert_eq!(Failure::ReceiverDisconnected.message(), "packet receiver disconnected");
}

#[test]
fn a_closed_block_engine_queue_is_a_failure() {
    let mut thread = thread_with(1, false);
    start_receiving(&mut thread, 0);
    step(&mut thread, Event::Received { now: 0, banking_packet_batch: batch_of(2) });
    let action = step(&mut thread, Event::Forwarded(BlockEngineSend::Closed));
    assert!(matches!(action, Action::Fail(Failure::BlockEngineClosed)));
    assert_eq!(
        Failure::BlockEngineClosed.message(),
        "error sending packet batch to block engine handler"
    );
}

#[test]
fn a_delivery_that_fails_is_a_failure() {
    let mut thread = thread_with(0, true);
    start_receiving(&mut thread, 0);
    step(&mut thread, Event::Received { now: 0, banking_packet_batch: batch_of(2) });
    step(&mut thread, Event::ClockRead { now: 0 });
    let action = step(&mut thread, Event::DeliveryFailed);
    assert!(matches!(action, Action::Fail(Failure::DeliveryFailed)));
    assert_eq!(Failure::DeliveryFailed.message(), "exiting forwarding delayed packets");
}

#[test]
fn events_out_of_turn_are_not_accepted() {
    let thread = thread_with(1, false);
    assert!(!thread.can_step(&Event::ReceiveTimedOut));
    assert!(!thread.can_step(&Event::Forwarded(BlockEngineSend::Sent)));
    assert!(!thread.can_step(&Event::ClockRead { now: 0 }));
    assert!(!thread.can_step(&Event::Delivered));
    assert!(!thread.can_step(&measured(0)));
    let received = Event::Received { now: 0, banking_packet_batch: batch_of(1) };
    assert!(!thread.can_step(&received));
}

#[test]
fn a_queue_larger_than_expected_is_not_accepted() {
    let mut thread = thread_with(1, false);
    start_receiving(&mut thread, 0);
    step(&mut thread, Event::ReceiveTimedOut);
    assert!(!thread.can_step(&measured(5_001)));
    assert!(thread.can_step(&measured(5_000)));
}

#[test]
fn the_buffer_has_room_from_the_start() {
    let thread = thread_with(1, false);
    assert!(thread.buffered_capacity() >= BUFFERED_PACKET_BATCHES_CAPACITY);
}

#[test]
fn a_clock_that_goes_back_counts_as_no_time() {
    let mut thread = thread_with(1, true);
    start_receiving(&mut thread, 0);
    step(&mut thread, Event::Received { now: 5 * MILLI, banking_packet_batch: batch_of(1) });
    let action = step(&mut thread, Event::ClockRead { now: 0 });
    assert!(matches!(action, Action::Measure));
}

#[test]
fn two_reports_count_every_packet_once() {
    let mut thread = thread_with(0, true);
    let mut counted: Vec<(u64, u64, u64, u64)> = vec![];
    for (second, len) in [(1u128, 2), (2, 5)] {
        start_receiving(&mut thread, (second - 1) * 1_000_000_000);
        step(&mut thread, Event::Received { now: 0, banking_packet_batch: batch_of(len) });
        step(&mut thread, Event::ClockRead { now: 0 });
        assert!(matches!(step(&mut thread, Event::Delivered), Action::Measure));
        step(&mut thread, measured(0));
        let now = second * 1_000_000_000;
        match step(&mut thread, Event::Polled { exit: false, now }) {
            Action::Report(metrics) => counted.push((
                metrics.num_batches_received,
                metrics.num_packets_received,
                metrics.num_relayer_packets_forwarded,
                metrics.num_be_packets_forwarded,
            )),
            _ => panic!("no report"),
        }
        step(
            &mut thread,
            Event::Reported {
                now,
                buffered_capacity: 0,
                verified_receiver_capacity: None,
                block_engine_capacity: 0,
            },
        );
        step(&mut thread, Event::ReceiveTimedOut);
        step(&mut thread, measured(0));
    }
    assert_eq!(counted, vec![(1, 2, 2, 0), (1, 5, 5, 0)]);
}

#[test]
fn unfiltered_packets_balance_and_marks_are_of_the_interval() {
    let mut thread = thread_with(0, false);
    let rounds = [
        (1u128, vec![(2, BlockEngineSend::Sent), (3, BlockEngineSend::Full)], 9),
        (2, vec![(4, BlockEngineSend::Sent)], 6),
    ];
    for (second, batches, receiver_len) in rounds {
        let start = (second - 1) * 1_000_000_000;
        for (len, send) in batches {
            start_receiving(&mut thread, start);
            step(&mut thread, Event::Received { now: 0, banking_packet_batch: batch_of(len) });
            step(&mut thread, Event::Forwarded(send));
            step(&mut thread, Event::ClockRead { now: 0 });
            step(&mut thread, Event::Delivered);
            step(
                &mut thread,
                Event::Measured {
                    buffered_capacity: 1,
                    verified_receiver_len: receiver_len,
                    block_engine_capacity: 5_000,
                },
            );
            // Another batch is not taken before the thread polls.
            let again = Event::Received { now: 0, banking_packet_batch: batch_of(1) };
            assert!(!thread.can_step(&again));
        }
        let now = second * 1_000_000_000;
        match step(&mut thread, Event::Polled { exit: false, now }) {
            Action::Report(metrics) => {
                assert_eq!(
                    metrics.num_be_packets_forwarded + metrics.num_be_packets_dropped,
                    metrics.num_packets_received
                );
                assert_eq!(metrics.num_be_packets_dropped > 0, metrics.num_be_sender_full > 0);
                assert_eq!(metrics.verified_receiver_max_len, receiver_len);
            }
            _ => panic!("no report"),
        }
        step(
            &mut thread,
            Event::Reported {
                now,
                buffered_capacity: 0,
                verified_receiver_capacity: None,
                block_engine_capacity: 0,
            },
        );
        step(&mut thread, Event::ReceiveTimedOut);
        step(&mut thread, measured(5_000));
    }
}
