use forwarder::metrics::{BlockEngineSend, ForwarderMetrics};

#[test]
fn new_metrics_count_nothing() {
    let metrics = ForwarderMetrics::new(1, 2, 3);
    assert_eq!(
        metrics,
        ForwarderMetrics {
            num_batches_received: 0,
            num_packets_received: 0,
            num_be_packets_forwarded: 0,
            num_be_packets_dropped: 0,
            num_be_sender_full: 0,
            num_relayer_packets_forwarded: 0,
            buffered_packet_batches_max_len: 0,
            buffered_packet_batches_capacity: 1,
            verified_receiver_max_len: 0,
            verified_receiver_capacity: 2,
            block_engine_sender_max_len: 0,
            block_engine_sender_capacity: 3,
        }
    );
}

#[test]
fn queue_lengths_are_high_water_marks() {
    let mut metrics = ForwarderMetrics::new(10, 20, 30);
    metrics.update_queue_lengths(4, 9, 5, 6);
    metrics.update_queue_lengths(3, 12, 7, 2);
    assert_eq!(metrics.buffered_packet_batches_max_len, 4);
    assert_eq!(metrics.buffered_packet_batches_capacity, 12);
    assert_eq!(metrics.verified_receiver_max_len, 7);
    assert_eq!(metrics.verified_receiver_capacity, 20);
    assert_eq!(metrics.block_engine_sender_max_len, 6);
    assert_eq!(metrics.block_engine_sender_capacity, 30);
    let mut again = metrics;
    again.update_queue_lengths(3, 12, 7, 2);
    assert_eq!(again, metrics);
}

#[test]
fn sends_are_counted_by_outcome() {
    let mut metrics = ForwarderMetrics::new(0, 0, 0);
    metrics.record_received(9);
    metrics.record_relayed(5);
    metrics.record_block_engine_send(BlockEngineSend::Sent, 3);
    metrics.record_block_engine_send(BlockEngineSend::Full, 2);
    metrics.record_block_engine_send(BlockEngineSend::Filtered, 4);
    metrics.record_block_engine_send(BlockEngineSend::Closed, 4);
    assert_eq!(metrics.num_batches_received, 1);
    assert_eq!(metrics.num_packets_received, 9);
    assert_eq!(metrics.num_relayer_packets_forwarded, 5);
    assert_eq!(metrics.num_be_packets_forwarded, 3);
    assert_eq!(metrics.num_be_packets_dropped, 2);
    assert_eq!(metrics.num_be_sender_full, 1);
}

#[test]
fn a_report_names_every_field() {
    let mut metrics = ForwarderMetrics::new(10, 11, 12);
    metrics.update_queue_lengths(7, 8, 9, 6);
    metrics.num_batches_received = 1;
    metrics.num_packets_received = u64::MAX;
    metrics.num_be_packets_forwarded = 3;
    metrics.num_be_packets_dropped = 4;
    metrics.num_be_sender_full = 5;
    metrics.num_relayer_packets_forwarded = 2;
    let point = metrics.report(21, 22);
    assert_eq!(point.name, "forwarder_metrics");
    assert_eq!(
        point.fields,
        vec![
            ("thread_id", 21),
            ("delay", 22),
            ("num_batches_received", 1),
            ("num_packets_received", -1),
            ("num_be_packets_forwarded", 3),
            ("num_be_packets_dropped", 4),
            ("num_be_sender_full", 5),
            ("num_relayer_packets_forwarded", 2),
            ("buffered_packet_batches_len", 7),
            ("buffered_packet_batches_capacity", 10),
            ("verified_receiver_len", 9),
            ("verified_receiver_capacity", 11),
            ("block_engine_sender_len", 6),
            ("block_engine_sender_capacity", 12),
        ]
    );
}

#[test]
fn the_order_of_measurements_does_not_matter() {
    let mut a = ForwarderMetrics::new(1, 2, 3);
    let mut b = a;
    a.update_queue_lengths(1, 8, 3, 6);
    a.update_queue_lengths(5, 4, 7, 2);
    b.update_queue_lengths(5, 4, 7, 2);
    b.update_queue_lengths(1, 8, 3, 6);
    assert_eq!(a, b);
}
