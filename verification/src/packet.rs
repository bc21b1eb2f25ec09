//! Packets, their batches, and the addresses that they come from.

use std::sync::Arc;

use vstd::prelude::*;

verus! {

/// The number of bytes that a packet can hold.
pub const PACKET_DATA_SIZE: usize = 1232;

/// An address without a port.
#[derive(Clone, Copy, PartialEq, Eq, Structural, Debug)]
pub enum IpAddr {
    V4(u32),
    V6(u128),
}

/// An address with a port.
#[derive(Clone, Copy, PartialEq, Eq, Structural, Debug)]
pub enum SocketAddr {
    V4 { ipv4: u32, port: u16 },
    V6 { ipv6: u128, port: u16, flowinfo: u32, scope_id: u32 },
}

impl SocketAddr {
    /// The socket address of a host and a port. An IPv6 address made in this way has neither flow
    /// information nor a scope.
    pub open spec fn of(ip: IpAddr, port: u16) -> SocketAddr {
        match ip {
            IpAddr::V4(ipv4) => SocketAddr::V4 { ipv4, port },
            IpAddr::V6(ipv6) => SocketAddr::V6 { ipv6, port, flowinfo: 0, scope_id: 0 },
        }
    }

    pub fn new(ip: IpAddr, port: u16) -> (addr: SocketAddr)
        ensures
            addr == SocketAddr::of(ip, port),
    {
        match ip {
            IpAddr::V4(ipv4) => SocketAddr::V4 { ipv4, port },
            IpAddr::V6(ipv6) => SocketAddr::V6 { ipv6, port, flowinfo: 0, scope_id: 0 },
        }
    }
}

/// What is known of a packet besides its bytes. `flags` holds the packet's flag bits.
#[derive(Clone, Copy, Debug)]
pub struct Meta {
    pub size: usize,
    pub addr: IpAddr,
    pub port: u16,
    pub flags: u8,
}

impl Default for Meta {
    fn default() -> (meta: Meta)
        ensures
            meta == (Meta { size: 0, addr: IpAddr::V4(0), port: 0, flags: 0 }),
    {
        Meta { size: 0, addr: IpAddr::V4(0), port: 0, flags: 0 }
    }
}

impl Meta {
    /// The socket address that the packet came from.
    pub open spec fn source(self) -> SocketAddr {
        SocketAddr::of(self.addr, self.port)
    }

    pub fn socket_addr(&self) -> (addr: SocketAddr)
        ensures
            addr == self.source(),
    {
        SocketAddr::new(self.addr, self.port)
    }
}

/// One packet. Only the first `meta.size` bytes of `buffer` mean anything.
#[derive(Clone, Copy, Debug)]
pub struct Packet {
    pub buffer: [u8; PACKET_DATA_SIZE],
    pub meta: Meta,
}

impl Default for Packet {
    fn default() -> (packet: Packet)
        ensures
            packet.meta == (Meta { size: 0, addr: IpAddr::V4(0), port: 0, flags: 0 }),
            forall|i: int| 0 <= i < PACKET_DATA_SIZE ==> packet.buffer@[i] == 0,
    {
        Packet { buffer: [0u8; PACKET_DATA_SIZE], meta: Meta::default() }
    }
}

/// Packets that travel together, in order.
#[derive(Debug)]
pub struct PacketBatch {
    packets: Vec<Packet>,
}

impl View for PacketBatch {
    type V = Seq<Packet>;

    closed spec fn view(&self) -> Seq<Packet> {
        self.packets@
    }
}

impl Default for PacketBatch {
    fn default() -> (batch: PacketBatch)
        ensures
            batch@ == Seq::<Packet>::empty(),
    {
        PacketBatch { packets: Vec::new() }
    }
}

impl PacketBatch {
    pub fn new(packets: Vec<Packet>) -> (batch: PacketBatch)
        ensures
            batch@ == packets@,
    {
        PacketBatch { packets }
    }

    pub fn len(&self) -> (len: usize)
        ensures
            len == self@.len(),
    {
        self.packets.len()
    }

    /// The packet at position `i`.
    pub fn get(&self, i: usize) -> (packet: &Packet)
        requires
            i < self@.len(),
        ensures
            *packet == self@[i as int],
    {
        &self.packets[i]
    }
}

/// What signature verification counted of tracer packets, carried along with the packets.
#[derive(Clone, Copy, PartialEq, Eq, Structural, Debug)]
pub struct SigverifyTracerPacketStats {
    pub total_removed_before_sigverify_stage: usize,
    pub total_tracer_packets_received_in_sigverify_stage: usize,
    pub total_tracer_packets_deduped: usize,
    pub total_excess_tracer_packets: usize,
    pub total_tracker_packets_passed_sigverify: usize,
}

impl Default for SigverifyTracerPacketStats {
    fn default() -> (stats: SigverifyTracerPacketStats)
        ensures
            stats == (SigverifyTracerPacketStats {
                total_removed_before_sigverify_stage: 0,
                total_tracer_packets_received_in_sigverify_stage: 0,
                total_tracer_packets_deduped: 0,
                total_excess_tracer_packets: 0,
                total_tracker_packets_passed_sigverify: 0,
            }),
    {
        SigverifyTracerPacketStats {
            total_removed_before_sigverify_stage: 0,
            total_tracer_packets_received_in_sigverify_stage: 0,
            total_tracer_packets_deduped: 0,
            total_excess_tracer_packets: 0,
            total_tracker_packets_passed_sigverify: 0,
        }
    }
}

/// The packet batches that passed signature verification together, shared between the stages
/// that they go to.
pub type BankingPacketBatch = Arc<(Vec<PacketBatch>, Option<SigverifyTracerPacketStats>)>;

/// Another pointer to the same batches, by the `clone` of `std::sync::Arc`.
///
/// What it points to is what `batch` points to.
#[verifier::external_body]
pub(crate) fn share(batch: &BankingPacketBatch) -> (shared: BankingPacketBatch)
    ensures
        shared == *batch,
{
    batch.clone()
}

/// The packets of each batch.
pub open spec fn contents(batches: Seq<PacketBatch>) -> Seq<Seq<Packet>> {
    batches.map_values(|batch: PacketBatch| batch@)
}

/// How many packets the batches hold together.
pub open spec fn total_packets(batches: Seq<Seq<Packet>>) -> nat
    decreases batches.len(),
{
    if batches.len() == 0 {
        0
    } else {
        total_packets(batches.drop_last()) + batches.last().len()
    }
}

/// Counts the packets of all batches. `None` if there are more than a `u64` can count.
pub fn num_packets(batches: &Vec<PacketBatch>) -> (num: Option<u64>)
    ensures
        num == (if total_packets(contents(batches@)) <= u64::MAX {
            Some(total_packets(contents(batches@)) as u64)
        } else {
            None
        }),
{
    let mut num: u64 = 0;
    let mut i: usize = 0;
    while i < batches.len()
        invariant
            i <= batches.len(),
            num == total_packets(contents(batches@.take(i as int))),
        decreases batches.len() - i,
    {
        proof {
            let next = contents(batches@.take(i + 1));
            assert(next.drop_last() =~= contents(batches@.take(i as int)));
            assert(next.last() == batches@[i as int]@);
        }
        match num.checked_add(batches[i].len() as u64) {
            Some(sum) => {
                num = sum;
            },
            None => {
                proof {
                    lemma_total_packets_prefix(contents(batches@), i + 1);
                    assert(contents(batches@).take(i + 1) =~= contents(batches@.take(i + 1)));
                }
                return None;
            },
        }
        i += 1;
    }
    assert(batches@.take(i as int) =~= batches@);
    Some(num)
}

/// The first batches hold no more packets than all of them.
pub proof fn lemma_total_packets_prefix(batches: Seq<Seq<Packet>>, n: int)
    requires
        0 <= n <= batches.len(),
    ensures
        total_packets(batches.take(n)) <= total_packets(batches),
    decreases batches.len(),
{
    if n < batches.len() {
        lemma_total_packets_prefix(batches.drop_last(), n);
        assert(batches.drop_last().take(n) =~= batches.take(n));
    } else {
        assert(batches.take(n) =~= batches);
    }
}

/// A packet's source keeps the whole address and the port: it has that very host and port, with
/// neither flow information nor a scope, and two packets have the same source exactly if they have
/// the same address and the same port.
pub proof fn law_source_keeps_address_and_port(a: Meta, b: Meta)
    ensures
        a.addr matches IpAddr::V4(ip) ==> a.source() == (SocketAddr::V4 { ipv4: ip, port: a.port }),
        a.addr matches IpAddr::V6(ip) ==> a.source() == (SocketAddr::V6 {
            ipv6: ip,
            port: a.port,
            flowinfo: 0,
            scope_id: 0,
        }),
        a.source() == b.source() <==> a.addr == b.addr && a.port == b.port,
{
}

/// The packets of two runs of batches are counted apart, and one batch counts as many packets as it
/// holds.
pub proof fn law_packets_add_up(a: Seq<Seq<Packet>>, b: Seq<Seq<Packet>>, batch: Seq<Packet>)
    ensures
        total_packets(Seq::<Seq<Packet>>::empty()) == 0,
        total_packets(seq![batch]) == batch.len(),
        total_packets(a + b) == total_packets(a) + total_packets(b),
    decreases b.len(),
{
    reveal_with_fuel(total_packets, 2);
    assert(seq![batch].drop_last() =~= Seq::<Seq<Packet>>::empty());
    assert(seq![batch].last() == batch);
    if b.len() == 0 {
        assert(a + b =~= a);
    } else {
        law_packets_add_up(a, b.drop_last(), batch);
        assert((a + b).drop_last() =~= a + b.drop_last());
        assert((a + b).last() == b.last());
    }
}

/// The contents of batches are the packets of each, in order, with none left out.
pub proof fn law_contents_are_whole(batches: Seq<PacketBatch>)
    ensures
        contents(batches).len() == batches.len(),
        forall|i: int| 0 <= i < batches.len() ==> #[trigger] contents(batches)[i] == batches[i]@,
{
}

} // verus!
