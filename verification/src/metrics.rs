//! What a forwarder thread counts between two reports.

use vstd::prelude::*;

verus! {

/// What became of a batch that was handed to the block engine's queue.
#[derive(Clone, Copy, PartialEq, Eq, Structural, Debug)]
pub enum BlockEngineSend {
    /// No packet was left to send.
    Filtered,
    /// The queue took the batch.
    Sent,
    /// The queue was full: the block engine is most likely not connected.
    Full,
    /// The queue has no receiver any more.
    Closed,
}

/// A named measurement: its fields, by name, in order.
#[derive(Debug)]
pub struct DataPoint {
    pub name: &'static str,
    pub fields: Vec<(&'static str, i64)>,
}

impl DataPoint {
    /// The names and values of the fields, in order.
    pub open spec fn fields_view(self) -> Seq<(Seq<char>, i64)> {
        self.fields@.map_values(|field: (&'static str, i64)| (field.0@, field.1))
    }
}

/// The counters of a forwarder thread since its last report, and the high water marks of its
/// queues.
#[derive(Clone, Copy, PartialEq, Eq, Structural, Debug)]
pub struct ForwarderMetrics {
    pub num_batches_received: u64,
    pub num_packets_received: u64,
    pub num_be_packets_forwarded: u64,
    pub num_be_packets_dropped: u64,
    pub num_be_sender_full: u64,
    pub num_relayer_packets_forwarded: u64,
    // high water mark on queue lengths
    pub buffered_packet_batches_max_len: usize,
    pub buffered_packet_batches_capacity: usize,
    pub verified_receiver_max_len: usize,
    pub verified_receiver_capacity: usize,
    pub block_engine_sender_max_len: usize,
    pub block_engine_sender_capacity: usize,
}

/// The larger of two lengths.
pub open spec fn larger(a: usize, b: usize) -> usize {
    if a >= b {
        a
    } else {
        b
    }
}

fn max_len(a: usize, b: usize) -> (max: usize)
    ensures
        max == larger(a, b),
{
    if a >= b {
        a
    } else {
        b
    }
}

impl ForwarderMetrics {
    /// Nothing counted yet, with queues of these capacities.
    pub open spec fn fresh(
        buffered_packet_batches_capacity: usize,
        verified_receiver_capacity: usize,
        block_engine_sender_capacity: usize,
    ) -> ForwarderMetrics {
        ForwarderMetrics {
            num_batches_received: 0,
            num_packets_received: 0,
            num_be_packets_forwarded: 0,
            num_be_packets_dropped: 0,
            num_be_sender_full: 0,
            num_relayer_packets_forwarded: 0,
            buffered_packet_batches_max_len: 0,
            buffered_packet_batches_capacity,
            verified_receiver_max_len: 0,
            verified_receiver_capacity,
            block_engine_sender_max_len: 0,
            block_engine_sender_capacity,
        }
    }

    pub fn new(
        buffered_packet_batches_capacity: usize,
        verified_receiver_capacity: usize,
        block_engine_sender_capacity: usize,
    ) -> (metrics: Self)
        ensures
            metrics == ForwarderMetrics::fresh(
                buffered_packet_batches_capacity,
                verified_receiver_capacity,
                block_engine_sender_capacity,
            ),
    {
        ForwarderMetrics {
            num_batches_received: 0,
            num_packets_received: 0,
            num_be_packets_forwarded: 0,
            num_be_packets_dropped: 0,
            num_be_sender_full: 0,
            num_relayer_packets_forwarded: 0,
            buffered_packet_batches_max_len: 0,
            buffered_packet_batches_capacity,
            verified_receiver_max_len: 0,
            verified_receiver_capacity,
            block_engine_sender_max_len: 0,
            block_engine_sender_capacity,
        }
    }

    /// These metrics with each high water mark raised to what was measured, if that is higher. The
    /// capacities of the receiver and of the block engine's queue stay.
    pub open spec fn raised(
        self,
        buffered_packet_batches_len: usize,
        buffered_packet_batches_capacity: usize,
        verified_receiver_len: usize,
        block_engine_sender_len: usize,
    ) -> ForwarderMetrics {
        ForwarderMetrics {
            buffered_packet_batches_max_len: larger(
                self.buffered_packet_batches_max_len,
                buffered_packet_batches_len,
            ),
            buffered_packet_batches_capacity: larger(
                self.buffered_packet_batches_capacity,
                buffered_packet_batches_capacity,
            ),
            verified_receiver_max_len: larger(
                self.verified_receiver_max_len,
                verified_receiver_len,
            ),
            block_engine_sender_max_len: larger(
                self.block_engine_sender_max_len,
                block_engine_sender_len,
            ),
            ..self
        }
    }

    pub fn update_queue_lengths(
        &mut self,
        buffered_packet_batches_len: usize,
        buffered_packet_batches_capacity: usize,
        verified_receiver_len: usize,
        block_engine_sender_len: usize,
    )
        ensures
            *final(self) == old(self).raised(
                buffered_packet_batches_len,
                buffered_packet_batches_capacity,
                verified_receiver_len,
                block_engine_sender_len,
            ),
    {
        self.buffered_packet_batches_max_len = max_len(
            self.buffered_packet_batches_max_len,
            buffered_packet_batches_len,
        );
        self.buffered_packet_batches_capacity = max_len(
            self.buffered_packet_batches_capacity,
            buffered_packet_batches_capacity,
        );
        self.verified_receiver_max_len = max_len(
            self.verified_receiver_max_len,
            verified_receiver_len,
        );
        self.block_engine_sender_max_len = max_len(
            self.block_engine_sender_max_len,
            block_engine_sender_len,
        );
    }

    /// These metrics with one more batch of `num_packets` packets received.
    pub open spec fn received(self, num_packets: u64) -> ForwarderMetrics {
        ForwarderMetrics {
            num_batches_received: (self.num_batches_received + 1) as u64,
            num_packets_received: (self.num_packets_received + num_packets) as u64,
            ..self
        }
    }

    /// Counts a received batch.
    pub fn record_received(&mut self, num_packets: u64)
        requires
            old(self).num_batches_received < u64::MAX,
            old(self).num_packets_received + num_packets <= u64::MAX,
        ensures
            *final(self) == old(self).received(num_packets),
    {
        self.num_batches_received += 1;
        self.num_packets_received += num_packets;
    }

    /// These metrics with what became of a batch of `num_packets` packets on its way to the block
    /// engine.
    pub open spec fn sent(self, send: BlockEngineSend, num_packets: u64) -> ForwarderMetrics {
        match send {
            BlockEngineSend::Sent => ForwarderMetrics {
                num_be_packets_forwarded: (self.num_be_packets_forwarded + num_packets) as u64,
                ..self
            },
            BlockEngineSend::Full => ForwarderMetrics {
                num_be_packets_dropped: (self.num_be_packets_dropped + num_packets) as u64,
                num_be_sender_full: (self.num_be_sender_full + 1) as u64,
                ..self
            },
            _ => self,
        }
    }

    /// Counts what became of a batch on its way to the block engine. A filtered batch, and one that
    /// met a closed queue, is not counted.
    pub fn record_block_engine_send(&mut self, send: BlockEngineSend, num_packets: u64)
        requires
            send is Sent ==> old(self).num_be_packets_forwarded + num_packets <= u64::MAX,
            send is Full ==> old(self).num_be_packets_dropped + num_packets <= u64::MAX,
            send is Full ==> old(self).num_be_sender_full < u64::MAX,
        ensures
            *final(self) == old(self).sent(send, num_packets),
    {
        match send {
            BlockEngineSend::Sent => {
                self.num_be_packets_forwarded += num_packets;
            },
            BlockEngineSend::Full => {
                self.num_be_packets_dropped += num_packets;
                self.num_be_sender_full += 1;
            },
            BlockEngineSend::Filtered | BlockEngineSend::Closed => {},
        }
    }

    /// These metrics with `num_packets` more packets handed on to the validator.
    pub open spec fn relayed(self, num_packets: u64) -> ForwarderMetrics {
        ForwarderMetrics {
            num_relayer_packets_forwarded: (self.num_relayer_packets_forwarded
                + num_packets) as u64,
            ..self
        }
    }

    /// Counts packets that are handed on to the validator.
    pub fn record_relayed(&mut self, num_packets: u64)
        requires
            old(self).num_relayer_packets_forwarded + num_packets <= u64::MAX,
        ensures
            *final(self) == old(self).relayed(num_packets),
    {
        self.num_relayer_packets_forwarded += num_packets;
    }

    /// What a report of these metrics says: each field's name and value, in order. A value that is
    /// too large for an `i64` wraps round.
    pub open spec fn reported(self, thread_id: u64, delay: u32) -> Seq<(Seq<char>, i64)> {
        seq![
            ("thread_id"@, thread_id as i64),
            ("delay"@, delay as i64),
            ("num_batches_received"@, self.num_batches_received as i64),
            ("num_packets_received"@, self.num_packets_received as i64),
            ("num_be_packets_forwarded"@, self.num_be_packets_forwarded as i64),
            ("num_be_packets_dropped"@, self.num_be_packets_dropped as i64),
            ("num_be_sender_full"@, self.num_be_sender_full as i64),
            ("num_relayer_packets_forwarded"@, self.num_relayer_packets_forwarded as i64),
            ("buffered_packet_batches_len"@, self.buffered_packet_batches_max_len as i64),
            ("buffered_packet_batches_capacity"@, self.buffered_packet_batches_capacity as i64),
            ("verified_receiver_len"@, self.verified_receiver_max_len as i64),
            ("verified_receiver_capacity"@, self.verified_receiver_capacity as i64),
            ("block_engine_sender_len"@, self.block_engine_sender_max_len as i64),
            ("block_engine_sender_capacity"@, self.block_engine_sender_capacity as i64),
        ]
    }

    /// The measurement that reports these metrics.
    pub fn report(&self, thread_id: u64, delay: u32) -> (point: DataPoint)
        ensures
            point.name@ == "forwarder_metrics"@,
            point.fields_view() == self.reported(thread_id, delay),
    {
        let mut fields: Vec<(&'static str, i64)> = Vec::new();
        fields.push(("thread_id", thread_id as i64));
        fields.push(("delay", delay as i64));
        fields.push(("num_batches_received", self.num_batches_received as i64));
        fields.push(("num_packets_received", self.num_packets_received as i64));
        // Relayer -> Block Engine Metrics
        fields.push(("num_be_packets_forwarded", self.num_be_packets_forwarded as i64));
        fields.push(("num_be_packets_dropped", self.num_be_packets_dropped as i64));
        fields.push(("num_be_sender_full", self.num_be_sender_full as i64));
        // Relayer -> validator metrics
        fields.push(("num_relayer_packets_forwarded", self.num_relayer_packets_forwarded as i64));
        // Channel stats
        fields.push(("buffered_packet_batches_len", self.buffered_packet_batches_max_len as i64));
        fields.push(
            ("buffered_packet_batches_capacity", self.buffered_packet_batches_capacity as i64),
        );
        fields.push(("verified_receiver_len", self.verified_receiver_max_len as i64));
        fields.push(("verified_receiver_capacity", self.verified_receiver_capacity as i64));
        fields.push(("block_engine_sender_len", self.block_engine_sender_max_len as i64));
        fields.push(("block_engine_sender_capacity", self.block_engine_sender_capacity as i64));
        let point = DataPoint { name: "forwarder_metrics", fields };
        assert(point.fields_view() =~= self.reported(thread_id, delay));
        point
    }
}

/// High water marks never fall, the counters stay as they are, and every length and the buffer's
/// capacity that was measured is covered.
pub proof fn law_high_water_marks_cover(
    metrics: ForwarderMetrics,
    buffered_len: usize,
    buffered_capacity: usize,
    receiver_len: usize,
    sender_len: usize,
)
    ensures
        ({
            let raised = metrics.raised(buffered_len, buffered_capacity, receiver_len, sender_len);
            &&& raised.buffered_packet_batches_max_len >= metrics.buffered_packet_batches_max_len
            &&& raised.buffered_packet_batches_max_len >= buffered_len
            &&& raised.buffered_packet_batches_capacity >= metrics.buffered_packet_batches_capacity
            &&& raised.buffered_packet_batches_capacity >= buffered_capacity
            &&& raised.verified_receiver_max_len >= metrics.verified_receiver_max_len
            &&& raised.verified_receiver_max_len >= receiver_len
            &&& raised.block_engine_sender_max_len >= metrics.block_engine_sender_max_len
            &&& raised.block_engine_sender_max_len >= sender_len
            &&& raised.num_batches_received == metrics.num_batches_received
            &&& raised.num_packets_received == metrics.num_packets_received
            &&& raised.num_be_packets_forwarded == metrics.num_be_packets_forwarded
            &&& raised.num_be_packets_dropped == metrics.num_be_packets_dropped
            &&& raised.num_be_sender_full == metrics.num_be_sender_full
            &&& raised.num_relayer_packets_forwarded == metrics.num_relayer_packets_forwarded
        }),
{
}

/// The order of two measurements does not matter, and measuring the same twice changes nothing.
pub proof fn law_measurements_commute(
    metrics: ForwarderMetrics,
    a: (usize, usize, usize, usize),
    b: (usize, usize, usize, usize),
)
    ensures
        metrics.raised(a.0, a.1, a.2, a.3).raised(b.0, b.1, b.2, b.3) == metrics.raised(
            b.0,
            b.1,
            b.2,
            b.3,
        ).raised(a.0, a.1, a.2, a.3),
        metrics.raised(a.0, a.1, a.2, a.3).raised(a.0, a.1, a.2, a.3) == metrics.raised(
            a.0,
            a.1,
            a.2,
            a.3,
        ),
{
}

/// New metrics have counted nothing, have no high water mark, and hold the capacities they were given.
pub proof fn law_new_metrics_are_empty(buffered: usize, receiver: usize, sender: usize)
    ensures
        ({
            let metrics = ForwarderMetrics::fresh(buffered, receiver, sender);
            &&& metrics.num_batches_received == 0
            &&& metrics.num_packets_received == 0
            &&& metrics.num_be_packets_forwarded == 0
            &&& metrics.num_be_packets_dropped == 0
            &&& metrics.num_be_sender_full == 0
            &&& metrics.num_relayer_packets_forwarded == 0
            &&& metrics.buffered_packet_batches_max_len == 0
            &&& metrics.verified_receiver_max_len == 0
            &&& metrics.block_engine_sender_max_len == 0
            &&& metrics.buffered_packet_batches_capacity == buffered
            &&& metrics.verified_receiver_capacity == receiver
            &&& metrics.block_engine_sender_capacity == sender
        }),
{
}

/// A received batch adds one to the batches and its packets to the packets. Taking these away again
/// gives back the metrics from before, so nothing else changes.
pub proof fn law_received_batch_is_counted(metrics: ForwarderMetrics, num_packets: u64)
    requires
        metrics.num_batches_received < u64::MAX,
        metrics.num_packets_received + num_packets <= u64::MAX,
    ensures
        metrics.received(num_packets).num_batches_received - metrics.num_batches_received == 1,
        metrics.received(num_packets).num_packets_received - metrics.num_packets_received
            == num_packets,
        metrics == (ForwarderMetrics {
            num_batches_received: metrics.num_batches_received,
            num_packets_received: metrics.num_packets_received,
            ..metrics.received(num_packets)
        }),
{
}

/// A batch that the block engine's queue takes adds its packets to those forwarded, and nothing
/// else. One that meets a full queue adds its packets to those dropped and one to the full queues
/// met, and nothing else. Any other batch changes nothing.
pub proof fn law_send_is_counted_by_outcome(
    metrics: ForwarderMetrics,
    send: BlockEngineSend,
    num_packets: u64,
)
    requires
        metrics.num_be_packets_forwarded + num_packets <= u64::MAX,
        metrics.num_be_packets_dropped + num_packets <= u64::MAX,
        metrics.num_be_sender_full < u64::MAX,
    ensures
        ({
            let after = metrics.sent(send, num_packets);
            &&& after.num_be_packets_forwarded - metrics.num_be_packets_forwarded == (
            if send is Sent {
                num_packets as int
            } else {
                0
            })
            &&& after.num_be_packets_dropped - metrics.num_be_packets_dropped == (if send is Full {
                num_packets as int
            } else {
                0
            })
            &&& after.num_be_sender_full - metrics.num_be_sender_full == (if send is Full {
                1int
            } else {
                0
            })
            &&& metrics == (ForwarderMetrics {
                num_be_packets_forwarded: metrics.num_be_packets_forwarded,
                num_be_packets_dropped: metrics.num_be_packets_dropped,
                num_be_sender_full: metrics.num_be_sender_full,
                ..after
            })
        }),
{
}

/// Packets handed on to the validator are added to those handed on, and nothing else changes.
pub proof fn law_relayed_packets_are_counted(metrics: ForwarderMetrics, num_packets: u64)
    requires
        metrics.num_relayer_packets_forwarded + num_packets <= u64::MAX,
    ensures
        metrics.relayed(num_packets).num_relayer_packets_forwarded
            - metrics.num_relayer_packets_forwarded == num_packets,
        metrics == (ForwarderMetrics {
            num_relayer_packets_forwarded: metrics.num_relayer_packets_forwarded,
            ..metrics.relayed(num_packets)
        }),
{
}

/// `mark` is the larger of the two lengths.
pub open spec fn is_larger_of(mark: usize, a: usize, b: usize) -> bool {
    mark >= a && mark >= b && (mark == a || mark == b)
}

/// After a measurement, each length's mark and the buffer's capacity is the larger of what it was
/// and what was measured, and nothing else changes.
pub proof fn law_marks_rise_to_what_was_measured(
    metrics: ForwarderMetrics,
    buffered_len: usize,
    buffered_capacity: usize,
    receiver_len: usize,
    sender_len: usize,
)
    ensures
        ({
            let raised = metrics.raised(buffered_len, buffered_capacity, receiver_len, sender_len);
            &&& is_larger_of(
                raised.buffered_packet_batches_max_len,
                metrics.buffered_packet_batches_max_len,
                buffered_len,
            )
            &&& is_larger_of(
                raised.buffered_packet_batches_capacity,
                metrics.buffered_packet_batches_capacity,
                buffered_capacity,
            )
            &&& is_larger_of(
                raised.verified_receiver_max_len,
                metrics.verified_receiver_max_len,
                receiver_len,
            )
            &&& is_larger_of(
                raised.block_engine_sender_max_len,
                metrics.block_engine_sender_max_len,
                sender_len,
            )
            &&& metrics == (ForwarderMetrics {
                buffered_packet_batches_max_len: metrics.buffered_packet_batches_max_len,
                buffered_packet_batches_capacity: metrics.buffered_packet_batches_capacity,
                verified_receiver_max_len: metrics.verified_receiver_max_len,
                block_engine_sender_max_len: metrics.block_engine_sender_max_len,
                ..raised
            })
        }),
{
}

/// The signed number with the same sixty-four bits as `value`.
pub open spec fn wrapped(value: int) -> int {
    if value < 0x8000_0000_0000_0000 {
        value
    } else {
        value - 0x1_0000_0000_0000_0000
    }
}

proof fn lemma_cast_wraps(value: u64)
    ensures
        value as i64 == wrapped(value as int),
{
    if value < 0x8000_0000_0000_0000 {
        assert(value as i64 == value) by (bit_vector)
            requires
                value < 0x8000_0000_0000_0000,
        ;
    } else {
        assert(value as i64 == value - 0x1_0000_0000_0000_0000) by (bit_vector)
            requires
                value >= 0x8000_0000_0000_0000,
        ;
    }
}

proof fn lemma_len_cast_wraps(value: usize)
    ensures
        value as i64 == wrapped(value as int),
{
    lemma_cast_wraps(value as u64);
    assert(value as i64 == (value as u64) as i64);
}

/// A report says fourteen things, in this order: each number under its own name, as long as it fits
/// in an `i64`, and wrapped round beyond that.
pub proof fn law_report_says_each_number_under_its_name(
    metrics: ForwarderMetrics,
    thread_id: u64,
    delay: u32,
)
    ensures
        ({
            let fields = metrics.reported(thread_id, delay);
            &&& fields.len() == 14
            &&& fields[0].0 == "thread_id"@ && fields[0].1 == wrapped(thread_id as int)
            &&& fields[1].0 == "delay"@ && fields[1].1 == delay
            &&& fields[2].0 == "num_batches_received"@ && fields[2].1 == wrapped(
                metrics.num_batches_received as int,
            )
            &&& fields[3].0 == "num_packets_received"@ && fields[3].1 == wrapped(
                metrics.num_packets_received as int,
            )
            &&& fields[4].0 == "num_be_packets_forwarded"@ && fields[4].1 == wrapped(
                metrics.num_be_packets_forwarded as int,
            )
            &&& fields[5].0 == "num_be_packets_dropped"@ && fields[5].1 == wrapped(
                metrics.num_be_packets_dropped as int,
            )
            &&& fields[6].0 == "num_be_sender_full"@ && fields[6].1 == wrapped(
                metrics.num_be_sender_full as int,
            )
            &&& fields[7].0 == "num_relayer_packets_forwarded"@ && fields[7].1 == wrapped(
                metrics.num_relayer_packets_forwarded as int,
            )
            &&& fields[8].0 == "buffered_packet_batches_len"@ && fields[8].1 == wrapped(
                metrics.buffered_packet_batches_max_len as int,
            )
            &&& fields[9].0 == "buffered_packet_batches_capacity"@ && fields[9].1 == wrapped(
                metrics.buffered_packet_batches_capacity as int,
            )
            &&& fields[10].0 == "verified_receiver_len"@ && fields[10].1 == wrapped(
                metrics.verified_receiver_max_len as int,
            )
            &&& fields[11].0 == "verified_receiver_capacity"@ && fields[11].1 == wrapped(
                metrics.verified_receiver_capacity as int,
            )
            &&& fields[12].0 == "block_engine_sender_len"@ && fields[12].1 == wrapped(
                metrics.block_engine_sender_max_len as int,
            )
            &&& fields[13].0 == "block_engine_sender_capacity"@ && fields[13].1 == wrapped(
                metrics.block_engine_sender_capacity as int,
            )
        }),
{
    lemma_cast_wraps(thread_id);
    lemma_cast_wraps(metrics.num_batches_received);
    lemma_cast_wraps(metrics.num_packets_received);
    lemma_cast_wraps(metrics.num_be_packets_forwarded);
    lemma_cast_wraps(metrics.num_be_packets_dropped);
    lemma_cast_wraps(metrics.num_be_sender_full);
    lemma_cast_wraps(metrics.num_relayer_packets_forwarded);
    lemma_len_cast_wraps(metrics.buffered_packet_batches_max_len);
    lemma_len_cast_wraps(metrics.buffered_packet_batches_capacity);
    lemma_len_cast_wraps(metrics.verified_receiver_max_len);
    lemma_len_cast_wraps(metrics.verified_receiver_capacity);
    lemma_len_cast_wraps(metrics.block_engine_sender_max_len);
    lemma_len_cast_wraps(metrics.block_engine_sender_capacity);
}

/// The fields of a measurement are seen whole and in order.
pub proof fn law_fields_are_whole(point: DataPoint)
    ensures
        point.fields_view().len() == point.fields@.len(),
        forall|i: int|
            0 <= i < point.fields@.len() ==> (#[trigger] point.fields_view()[i]).0
                == point.fields@[i].0@ && point.fields_view()[i].1 == point.fields@[i].1,
{
}

} // verus!
