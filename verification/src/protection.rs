//! Which packets go to the block engine while validators are protected: those that come from a
//! cluster node whose validator is let through.

use std::sync::{Arc, RwLock};

use vstd::prelude::*;

use crate::clusters::{cluster_walks, is_at, takes_at, walk_clusters, ClusterEntry, ClustersTpus};
use crate::locks::{
    guarded_schedule, read_schedule, read_slot, schedule_behind, schedule_readings, slot_readings,
};
use crate::packet::{
    contents, share, BankingPacketBatch, Packet, PacketBatch, SigverifyTracerPacketStats, SocketAddr,
};
use crate::validators::{
    admit_for_cluster, readable, repeated, LeaderOffsets, ReadError, StoreRead, StoreReading,
    ValidatorStore, WindowOverflow,
};

verus! {

/// A cluster entry that a walk met, and what the validator store gave when the entry was reached.
/// The reading matters only if the packet at hand comes from that entry.
pub struct Look {
    pub cluster: ClusterEntry,
    pub store: StoreReading,
}

impl Look {
    /// How many copies of a packet from `addr` go out because of this entry.
    pub open spec fn copies(self, addr: SocketAddr, offsets: LeaderOffsets) -> nat {
        if takes_at(self.cluster, addr) {
            self.store.copies(self.cluster.0, offsets)
        } else {
            0
        }
    }

    /// The read error that a packet from `addr` meets at this entry, if any.
    pub open spec fn errors(self, addr: SocketAddr) -> Seq<ReadError> {
        if takes_at(self.cluster, addr) {
            self.store.errors()
        } else {
            Seq::empty()
        }
    }
}

/// The entries that were looked at.
pub open spec fn entries(looks: Seq<Look>) -> Seq<ClusterEntry> {
    looks.map_values(|look: Look| look.cluster)
}

/// How many copies of a packet from `addr` go out.
pub open spec fn copies(addr: SocketAddr, looks: Seq<Look>, offsets: LeaderOffsets) -> nat
    decreases looks.len(),
{
    if looks.len() == 0 {
        0
    } else {
        copies(addr, looks.drop_last(), offsets) + looks.last().copies(addr, offsets)
    }
}

/// The read errors that a packet from `addr` meets.
pub open spec fn packet_errors(addr: SocketAddr, looks: Seq<Look>) -> Seq<ReadError>
    decreases looks.len(),
{
    if looks.len() == 0 {
        Seq::empty()
    } else {
        packet_errors(addr, looks.drop_last()) + looks.last().errors(addr)
    }
}

/// The copies of a batch's packets that go out, in the order of the packets. `looks[i]` is what
/// was looked at for the packet at position `i`.
pub open spec fn admitted(
    packets: Seq<Packet>,
    looks: Seq<Seq<Look>>,
    offsets: LeaderOffsets,
) -> Seq<Packet>
    decreases packets.len(),
{
    if packets.len() == 0 {
        Seq::empty()
    } else {
        let i = packets.len() - 1;
        admitted(packets.drop_last(), looks, offsets) + repeated(
            packets[i],
            copies(packets[i].meta.source(), looks[i], offsets),
        )
    }
}

/// The read errors that a batch's packets meet, in order.
pub open spec fn batch_errors(packets: Seq<Packet>, looks: Seq<Seq<Look>>) -> Seq<ReadError>
    decreases packets.len(),
{
    if packets.len() == 0 {
        Seq::empty()
    } else {
        let i = packets.len() - 1;
        batch_errors(packets.drop_last(), looks) + packet_errors(
            packets[i].meta.source(),
            looks[i],
        )
    }
}

/// What goes out of all batches, without the batches of which nothing does. `looks[i]` is what was
/// looked at for the batch at position `i`.
pub open spec fn protected(
    batches: Seq<Seq<Packet>>,
    looks: Seq<Seq<Seq<Look>>>,
    offsets: LeaderOffsets,
) -> Seq<Seq<Packet>>
    decreases batches.len(),
{
    if batches.len() == 0 {
        Seq::empty()
    } else {
        let i = batches.len() - 1;
        let rest = protected(batches.drop_last(), looks, offsets);
        let out = admitted(batches[i], looks[i], offsets);
        if out.len() == 0 {
            rest
        } else {
            rest.push(out)
        }
    }
}

/// The read errors that the packets of all batches meet, in order.
pub open spec fn all_errors(batches: Seq<Seq<Packet>>, looks: Seq<Seq<Seq<Look>>>) -> Seq<ReadError>
    decreases batches.len(),
{
    if batches.len() == 0 {
        Seq::empty()
    } else {
        let i = batches.len() - 1;
        all_errors(batches.drop_last(), looks) + batch_errors(batches[i], looks[i])
    }
}

/// `looks` is what may be looked at for one packet from `addr`: one whole walk of the cluster map,
/// and a reading of the validator store for each entry that the packet comes from, with all slots
/// near the current one in range.
pub open spec fn looked_up(
    addr: SocketAddr,
    looks: Seq<Look>,
    clusters: ClustersTpus,
    store: ValidatorStore,
    slot: RwLock<u64>,
    offsets: LeaderOffsets,
) -> bool {
    &&& cluster_walks(clusters).contains(entries(looks))
    &&& forall|i: int, j: int|
        0 <= i < j < looks.len() ==> (#[trigger] looks[i]).cluster.0 != (
        #[trigger] looks[j]).cluster.0
    &&& forall|i: int|
        0 <= i < looks.len() && takes_at(#[trigger] looks[i].cluster, addr) ==> {
            &&& looks[i].store.taken_from(store, slot)
            &&& looks[i].store.window_fits(offsets)
        }
}

/// `looks` is what may be looked at for the packets of one batch.
pub open spec fn batch_looked_up(
    packets: Seq<Packet>,
    looks: Seq<Seq<Look>>,
    clusters: ClustersTpus,
    store: ValidatorStore,
    slot: RwLock<u64>,
    offsets: LeaderOffsets,
) -> bool {
    &&& looks.len() == packets.len()
    &&& forall|i: int|
        0 <= i < packets.len() ==> looked_up(
            (#[trigger] packets[i]).meta.source(),
            looks[i],
            clusters,
            store,
            slot,
            offsets,
        )
}

/// `looks` is what may be looked at for the packets of all batches.
pub open spec fn all_looked_up(
    batches: Seq<Seq<Packet>>,
    looks: Seq<Seq<Seq<Look>>>,
    clusters: ClustersTpus,
    store: ValidatorStore,
    slot: RwLock<u64>,
    offsets: LeaderOffsets,
) -> bool {
    &&& looks.len() == batches.len()
    &&& forall|i: int|
        0 <= i < batches.len() ==> batch_looked_up(
            #[trigger] batches[i],
            looks[i],
            clusters,
            store,
            slot,
            offsets,
        )
}

/// `looks` is what may be looked at for one packet from `addr` up to where the lookup fails: the
/// start of a walk of the cluster map, up to an entry that the packet comes from, at which the
/// leader schedule and the current slot were read and the slots near the current one do not all
/// fit in a `u64`. They did fit at the entries before.
pub open spec fn stopped_at(
    overflow: WindowOverflow,
    addr: SocketAddr,
    looks: Seq<Look>,
    clusters: ClustersTpus,
    store: ValidatorStore,
    slot: RwLock<u64>,
    offsets: LeaderOffsets,
) -> bool {
    &&& looks.len() > 0
    &&& exists|walk: Seq<ClusterEntry>| #[trigger]
        cluster_walks(clusters).contains(walk) && entries(looks).is_prefix_of(walk)
    &&& forall|i: int|
        0 <= i < looks.len() && takes_at(#[trigger] looks[i].cluster, addr)
            ==> looks[i].store.taken_from(store, slot)
    &&& forall|i: int|
        0 <= i < looks.len() - 1 && takes_at(#[trigger] looks[i].cluster, addr)
            ==> looks[i].store.window_fits(offsets)
    &&& takes_at(looks.last().cluster, addr)
    &&& !looks.last().store.window_fits(offsets)
    &&& looks.last().store matches StoreReading::Leaders { current_slot, .. } && current_slot
        == overflow.current_slot
}

/// `looks` is what may be looked at for the packets of one batch up to where the lookup fails.
pub open spec fn batch_stopped_at(
    overflow: WindowOverflow,
    packets: Seq<Packet>,
    looks: Seq<Seq<Look>>,
    clusters: ClustersTpus,
    store: ValidatorStore,
    slot: RwLock<u64>,
    offsets: LeaderOffsets,
) -> bool {
    let i = looks.len() - 1;
    &&& 0 <= i < packets.len()
    &&& batch_looked_up(packets.take(i), looks.drop_last(), clusters, store, slot, offsets)
    &&& stopped_at(
        overflow,
        packets[i].meta.source(),
        looks.last(),
        clusters,
        store,
        slot,
        offsets,
    )
}

/// `looks` is what may be looked at for the packets of all batches up to where the lookup fails.
pub open spec fn all_stopped_at(
    overflow: WindowOverflow,
    batches: Seq<Seq<Packet>>,
    looks: Seq<Seq<Seq<Look>>>,
    clusters: ClustersTpus,
    store: ValidatorStore,
    slot: RwLock<u64>,
    offsets: LeaderOffsets,
) -> bool {
    let i = looks.len() - 1;
    &&& 0 <= i < batches.len()
    &&& all_looked_up(batches.take(i), looks.drop_last(), clusters, store, slot, offsets)
    &&& batch_stopped_at(overflow, batches[i], looks.last(), clusters, store, slot, offsets)
}

/// Some walk of the cluster map meets a node at `addr`.
pub open spec fn known(addr: SocketAddr, clusters: ClustersTpus) -> bool {
    exists|walk: Seq<ClusterEntry>, l: int|
        #![trigger cluster_walks(clusters).contains(walk), walk[l]]
        cluster_walks(clusters).contains(walk) && 0 <= l < walk.len() && takes_at(walk[l], addr)
}

/// There is cause to give up at `overflow.current_slot`: one of the packets comes from a node of
/// the cluster, the leader schedule can be read, and reading the lock `slot` gives that slot, around
/// which the slots do not all fit in a `u64`.
pub open spec fn overflows(
    overflow: WindowOverflow,
    batches: Seq<Seq<Packet>>,
    clusters: ClustersTpus,
    store: ValidatorStore,
    slot: RwLock<u64>,
    offsets: LeaderOffsets,
) -> bool {
    &&& exists|i: int, m: int|
        0 <= i < batches.len() && 0 <= m < batches[i].len() && known(
            (#[trigger] batches[i][m]).meta.source(),
            clusters,
        )
    &&& store matches ValidatorStore::LeaderSchedule(handle) && readable(handle)
    &&& slot_readings(slot).contains(Some(overflow.current_slot))
    &&& overflow.current_slot < offsets.before || overflow.current_slot + offsets.after > u64::MAX
}

/// Where the lookup fails, there is cause to give up.
pub proof fn law_stop_has_cause(
    overflow: WindowOverflow,
    batches: Seq<Seq<Packet>>,
    looks: Seq<Seq<Seq<Look>>>,
    clusters: ClustersTpus,
    store: ValidatorStore,
    slot: RwLock<u64>,
    offsets: LeaderOffsets,
)
    requires
        all_stopped_at(overflow, batches, looks, clusters, store, slot, offsets),
    ensures
        overflows(overflow, batches, clusters, store, slot, offsets),
{
    let i = looks.len() - 1;
    let m = looks[i].len() - 1;
    let seen = looks[i][m];
    let l = seen.len() - 1;
    let addr = batches[i][m].meta.source();
    assert(seen == looks.last().last());
    assert(seen.last() == seen[l]);
    assert(seen[l].store.taken_from(store, slot));
    let walk = choose|walk: Seq<ClusterEntry>| #[trigger]
        cluster_walks(clusters).contains(walk) && entries(seen).is_prefix_of(walk);
    assert(walk[l] == entries(seen)[l]);
    assert(known(addr, clusters));
    assert(batches[i][m].meta.source() == addr);
}

/// Packets on their way to the block engine, and the milliseconds after which they expire.
#[derive(Debug)]
pub struct BlockEnginePackets {
    pub banking_packet_batch: BankingPacketBatch,
    pub expiration: u32,
}

/// What is to be sent to the block engine, and the read errors met in finding that out. There is
/// nothing to send if every batch was filtered out.
#[derive(Debug)]
pub struct Forwarding {
    pub packets: Option<BlockEnginePackets>,
    pub read_errors: Vec<ReadError>,
}

impl Forwarding {
    /// The batches `out` are to be sent, if there are any.
    pub open spec fn sends(
        self,
        out: Seq<Seq<Packet>>,
        stats: Option<SigverifyTracerPacketStats>,
        expiration: u32,
    ) -> bool {
        match self.packets {
            Some(packets) => {
                &&& out.len() > 0
                &&& contents(packets.banking_packet_batch.0@) == out
                &&& packets.banking_packet_batch.1 == stats
                &&& packets.expiration == expiration
            },
            None => out.len() == 0,
        }
    }
}

/// Finds out which packets go to the block engine.
///
/// Without protection, the batches go as they are. With it, each packet is looked up in the
/// cluster map by the address that it came from, and a copy of it goes out for each slot near the
/// current one that its sender leads, or one copy if its sender was named by the operator.
/// What is looked at may change from packet to packet.
///
/// Fails only with protection by the leader schedule, at the first packet from a node of the
/// cluster for which both the schedule and a current slot were read that is too small or too large
/// for the offsets. So it succeeds whenever every slot that the lock gives is in range, and
/// whenever no packet comes from a known node.
pub fn forward_packet_batch_to_block_engine(
    banking_packet_batch: &BankingPacketBatch,
    validator_store: &ValidatorStore,
    clusters_tpus_cache: &ClustersTpus,
    current_slot: &RwLock<u64>,
    offsets: LeaderOffsets,
    enable_validator_leader_protection: bool,
    expiration: u32,
) -> (forwarding: Result<Forwarding, WindowOverflow>)
    ensures
        !enable_validator_leader_protection ==> {
            &&& forwarding matches Ok(forwarding)
            &&& forwarding.read_errors@.len() == 0
            &&& forwarding.packets == (if banking_packet_batch.0@.len() == 0 {
                None
            } else {
                Some(
                    BlockEnginePackets { banking_packet_batch: *banking_packet_batch, expiration },
                )
            })
        },
        enable_validator_leader_protection ==> (forwarding matches Ok(forwarding) ==> exists|
            looks: Seq<Seq<Seq<Look>>>,
        |
            {
                &&& #[trigger] all_looked_up(
                    contents(banking_packet_batch.0@),
                    looks,
                    *clusters_tpus_cache,
                    *validator_store,
                    *current_slot,
                    offsets,
                )
                &&& forwarding.sends(
                    protected(contents(banking_packet_batch.0@), looks, offsets),
                    banking_packet_batch.1,
                    expiration,
                )
                &&& forwarding.read_errors@ == all_errors(contents(banking_packet_batch.0@), looks)
            }),
        forwarding matches Err(overflow) ==> {
            &&& enable_validator_leader_protection
            &&& exists|looks: Seq<Seq<Seq<Look>>>| #[trigger]
                all_stopped_at(
                    overflow,
                    contents(banking_packet_batch.0@),
                    looks,
                    *clusters_tpus_cache,
                    *validator_store,
                    *current_slot,
                    offsets,
                )
            &&& overflows(
                overflow,
                contents(banking_packet_batch.0@),
                *clusters_tpus_cache,
                *validator_store,
                *current_slot,
                offsets,
            )
        },
{
    let mut read_errors: Vec<ReadError> = Vec::new();
    let batch: BankingPacketBatch = if enable_validator_leader_protection {
        let (filtered_packet_batches, looks) = match look_up_batches(
            &banking_packet_batch.0,
            clusters_tpus_cache,
            validator_store,
            current_slot,
            offsets,
            &mut read_errors,
        ) {
            Ok(found) => found,
            Err((overflow, looks)) => {
                proof {
                    law_stop_has_cause(
                        overflow,
                        contents(banking_packet_batch.0@),
                        looks@,
                        *clusters_tpus_cache,
                        *validator_store,
                        *current_slot,
                        offsets,
                    );
                }
                return Err(overflow);
            },
        };
        assert(all_looked_up(
            contents(banking_packet_batch.0@),
            looks@,
            *clusters_tpus_cache,
            *validator_store,
            *current_slot,
            offsets,
        ));
        assert(read_errors@ =~= all_errors(contents(banking_packet_batch.0@), looks@));
        Arc::new((filtered_packet_batches, banking_packet_batch.1))
    } else {
        share(banking_packet_batch)
    };
    assert(contents(batch.0@).len() == batch.0@.len());
    let packets = if batch.0.len() == 0 {
        None
    } else {
        Some(BlockEnginePackets { banking_packet_batch: batch, expiration })
    };
    Ok(Forwarding { packets, read_errors })
}

/// Looks up the node `cluster` in the validator store and appends the copies of `packet` that go
/// out for it, and the read error if there was one. Returns what the store gave.
fn look_up_cluster(
    packet: &Packet,
    cluster: &ClusterEntry,
    store: &ValidatorStore,
    current_slot: &RwLock<u64>,
    offsets: LeaderOffsets,
    packet_batch: &mut Vec<Packet>,
    read_errors: &mut Vec<ReadError>,
) -> (reading: Result<Ghost<StoreReading>, (WindowOverflow, Ghost<StoreReading>)>)
    ensures
        reading matches Ok(reading) ==> {
            &&& reading@.taken_from(*store, *current_slot)
            &&& reading@.window_fits(offsets)
            &&& final(packet_batch)@ == old(packet_batch)@ + repeated(
                *packet,
                reading@.copies(cluster.0, offsets),
            )
            &&& final(read_errors)@ == old(read_errors)@ + reading@.errors()
        },
        reading matches Err((overflow, reading)) ==> {
            &&& reading@.taken_from(*store, *current_slot)
            &&& !reading@.window_fits(offsets)
            &&& reading@ matches StoreReading::Leaders { current_slot: slot, .. } && slot
                == overflow.current_slot
        },
{
    match store {
        ValidatorStore::LeaderSchedule(leader_schedule) => {
            match read_schedule(&leader_schedule.schedule) {
                Ok(guard) => match read_slot(current_slot) {
                    Some(slot) => {
                        let schedule = schedule_behind(&guard);
                        assert(schedule_readings(*leader_schedule.schedule).contains(
                            Some(schedule@),
                        ));
                        let read = StoreRead::Leaders { schedule, current_slot: slot };
                        admit_cluster(packet, cluster, &read, offsets, packet_batch, read_errors)
                    },
                    None => {
                        assert(schedule_readings(*leader_schedule.schedule).contains(
                            Some(guarded_schedule(guard)),
                        ));
                        let read = StoreRead::Unreadable(ReadError::CurrentSlot);
                        admit_cluster(packet, cluster, &read, offsets, packet_batch, read_errors)
                    },
                },
                Err(_) => {
                    let read = StoreRead::Unreadable(ReadError::LeaderSchedule);
                    admit_cluster(packet, cluster, &read, offsets, packet_batch, read_errors)
                },
            }
        },
        ValidatorStore::UserDefined(validators) => {
            let read = StoreRead::UserDefined(validators);
            admit_cluster(packet, cluster, &read, offsets, packet_batch, read_errors)
        },
    }
}

/// Appends the copies of `packet` that go out for the node `cluster`, and the read error if there
/// was one. Hands back what the store gave.
fn admit_cluster(
    packet: &Packet,
    cluster: &ClusterEntry,
    read: &StoreRead,
    offsets: LeaderOffsets,
    packet_batch: &mut Vec<Packet>,
    read_errors: &mut Vec<ReadError>,
) -> (reading: Result<Ghost<StoreReading>, (WindowOverflow, Ghost<StoreReading>)>)
    ensures
        reading matches Ok(reading) ==> {
            &&& reading@ == read@
            &&& reading@.window_fits(offsets)
            &&& final(packet_batch)@ == old(packet_batch)@ + repeated(
                *packet,
                reading@.copies(cluster.0, offsets),
            )
            &&& final(read_errors)@ == old(read_errors)@ + reading@.errors()
        },
        reading matches Err((overflow, reading)) ==> {
            &&& reading@ == read@
            &&& !reading@.window_fits(offsets)
            &&& reading@ matches StoreReading::Leaders { current_slot, .. } && current_slot
                == overflow.current_slot
        },
{
    match admit_for_cluster(packet, &cluster.0, read, offsets, packet_batch, read_errors) {
        Ok(()) => Ok(Ghost(read@)),
        Err(overflow) => Err((overflow, Ghost(read@))),
    }
}

/// Looks up where `packet` comes from and appends the copies of it that go out, and the read
/// errors on the way. Returns what was looked at.
fn look_up_packet(
    packet: &Packet,
    clusters: &ClustersTpus,
    store: &ValidatorStore,
    current_slot: &RwLock<u64>,
    offsets: LeaderOffsets,
    packet_batch: &mut Vec<Packet>,
    read_errors: &mut Vec<ReadError>,
) -> (looks: Result<Ghost<Seq<Look>>, (WindowOverflow, Ghost<Seq<Look>>)>)
    ensures
        looks matches Ok(looks) ==> {
            &&& looked_up(packet.meta.source(), looks@, *clusters, *store, *current_slot, offsets)
            &&& final(packet_batch)@ == old(packet_batch)@ + repeated(
                *packet,
                copies(packet.meta.source(), looks@, offsets),
            )
            &&& final(read_errors)@ == old(read_errors)@ + packet_errors(
                packet.meta.source(),
                looks@,
            )
        },
        looks matches Err((overflow, looks)) ==> stopped_at(
            overflow,
            packet.meta.source(),
            looks@,
            *clusters,
            *store,
            *current_slot,
            offsets,
        ),
{
    let addr = packet.meta.socket_addr();
    let walk = walk_clusters(clusters);
    let ghost mut looks: Seq<Look> = Seq::empty();
    let mut i: usize = 0;
    assert(packet_batch@ =~= old(packet_batch)@ + repeated(*packet, 0));
    assert(read_errors@ =~= old(read_errors)@ + packet_errors(addr, looks));
    while i < walk.len()
        invariant
            i <= walk@.len(),
            cluster_walks(*clusters).contains(walk@),
            addr == packet.meta.source(),
            looks.len() == i,
            forall|j: int| 0 <= j < i ==> (#[trigger] looks[j]).cluster == walk@[j],
            forall|j: int|
                0 <= j < i && takes_at(#[trigger] looks[j].cluster, addr) ==> {
                    &&& looks[j].store.taken_from(*store, *current_slot)
                    &&& looks[j].store.window_fits(offsets)
                },
            packet_batch@ == old(packet_batch)@ + repeated(*packet, copies(addr, looks, offsets)),
            read_errors@ == old(read_errors)@ + packet_errors(addr, looks),
        decreases walk@.len() - i,
    {
        let cluster = &walk[i];
        let ghost before = looks;
        if is_at(cluster, addr) {
            let reading = match look_up_cluster(
                packet,
                cluster,
                store,
                current_slot,
                offsets,
                packet_batch,
                read_errors,
            ) {
                Ok(reading) => reading,
                Err((overflow, reading)) => {
                    proof {
                        looks = looks.push(Look { cluster: *cluster, store: reading@ });
                        assert(entries(looks).is_prefix_of(walk@));
                    }
                    return Err((overflow, Ghost(looks)));
                },
            };
            proof {
                looks = looks.push(Look { cluster: *cluster, store: reading@ });
            }
        } else {
            proof {
                let unread = StoreReading::Unreadable(ReadError::LeaderSchedule);
                looks = looks.push(Look { cluster: *cluster, store: unread });
            }
        }
        proof {
            assert(looks.drop_last() =~= before);
            assert(packet_batch@ =~= old(packet_batch)@ + repeated(
                *packet,
                copies(addr, looks, offsets),
            ));
            assert(read_errors@ =~= old(read_errors)@ + packet_errors(addr, looks));
        }
        i += 1;
    }
    assert(entries(looks) =~= walk@);
    Ok(Ghost(looks))
}

/// The copies of the batch's packets that go out, and what was looked at for each packet. Appends
/// the read errors on the way.
fn look_up_batch(
    batch: &PacketBatch,
    clusters: &ClustersTpus,
    store: &ValidatorStore,
    current_slot: &RwLock<u64>,
    offsets: LeaderOffsets,
    read_errors: &mut Vec<ReadError>,
) -> (out: Result<
    (Vec<Packet>, Ghost<Seq<Seq<Look>>>),
    (WindowOverflow, Ghost<Seq<Seq<Look>>>),
>)
    ensures
        out matches Ok((packet_batch, looks)) ==> {
            &&& batch_looked_up(batch@, looks@, *clusters, *store, *current_slot, offsets)
            &&& packet_batch@ == admitted(batch@, looks@, offsets)
            &&& final(read_errors)@ == old(read_errors)@ + batch_errors(batch@, looks@)
        },
        out matches Err((overflow, looks)) ==> batch_stopped_at(
            overflow,
            batch@,
            looks@,
            *clusters,
            *store,
            *current_slot,
            offsets,
        ),
{
    let mut packet_batch: Vec<Packet> = Vec::new();
    let ghost mut looks: Seq<Seq<Look>> = Seq::empty();
    let mut i: usize = 0;
    assert(read_errors@ =~= old(read_errors)@ + batch_errors(batch@.take(0), looks));
    while i < batch.len()
        invariant
            i <= batch@.len(),
            batch_looked_up(batch@.take(i as int), looks, *clusters, *store, *current_slot, offsets),
            packet_batch@ == admitted(batch@.take(i as int), looks, offsets),
            read_errors@ == old(read_errors)@ + batch_errors(batch@.take(i as int), looks),
        decreases batch@.len() - i,
    {
        let packet = batch.get(i);
        let found = match look_up_packet(
            packet,
            clusters,
            store,
            current_slot,
            offsets,
            &mut packet_batch,
            read_errors,
        ) {
            Ok(found) => found,
            Err((overflow, found)) => {
                let ghost stopped = looks.push(found@);
                assert(stopped.drop_last() =~= looks);
                return Err((overflow, Ghost(stopped)));
            },
        };
        proof {
            let packets = batch@.take(i + 1);
            let before = looks;
            looks = looks.push(found@);
            assert(packets.drop_last() =~= batch@.take(i as int));
            lemma_batch_needs_prefix(packets.drop_last(), before, looks, offsets);
            assert forall|j: int| 0 <= j < packets.len() implies looked_up(
                (#[trigger] packets[j]).meta.source(),
                looks[j],
                *clusters,
                *store,
                *current_slot,
                offsets,
            ) by {
                if j < i {
                    assert(packets[j] == batch@.take(i as int)[j]);
                }
            }
            assert(read_errors@ =~= old(read_errors)@ + batch_errors(packets, looks));
        }
        i += 1;
    }
    assert(batch@.take(i as int) =~= batch@);
    Ok((packet_batch, Ghost(looks)))
}

/// The copies of all batches' packets that go out, without the batches of which nothing does, and
/// what was looked at. Appends the read errors on the way.
fn look_up_batches(
    batches: &Vec<PacketBatch>,
    clusters: &ClustersTpus,
    store: &ValidatorStore,
    current_slot: &RwLock<u64>,
    offsets: LeaderOffsets,
    read_errors: &mut Vec<ReadError>,
) -> (out: Result<
    (Vec<PacketBatch>, Ghost<Seq<Seq<Seq<Look>>>>),
    (WindowOverflow, Ghost<Seq<Seq<Seq<Look>>>>),
>)
    ensures
        out matches Ok((filtered, looks)) ==> {
            &&& all_looked_up(contents(batches@), looks@, *clusters, *store, *current_slot, offsets)
            &&& contents(filtered@) == protected(contents(batches@), looks@, offsets)
            &&& final(read_errors)@ == old(read_errors)@ + all_errors(contents(batches@), looks@)
        },
        out matches Err((overflow, looks)) ==> all_stopped_at(
            overflow,
            contents(batches@),
            looks@,
            *clusters,
            *store,
            *current_slot,
            offsets,
        ),
{
    let mut filtered_packet_batches: Vec<PacketBatch> = Vec::new();
    let ghost all = contents(batches@);
    let ghost mut looks: Seq<Seq<Seq<Look>>> = Seq::empty();
    let mut i: usize = 0;
    assert(contents(filtered_packet_batches@) =~= protected(all.take(0), looks, offsets));
    assert(read_errors@ =~= old(read_errors)@ + all_errors(all.take(0), looks));
    while i < batches.len()
        invariant
            i <= batches@.len(),
            all == contents(batches@),
            all_looked_up(all.take(i as int), looks, *clusters, *store, *current_slot, offsets),
            contents(filtered_packet_batches@) == protected(all.take(i as int), looks, offsets),
            read_errors@ == old(read_errors)@ + all_errors(all.take(i as int), looks),
        decreases batches@.len() - i,
    {
        let (packet_batch, found) = match look_up_batch(
            &batches[i],
            clusters,
            store,
            current_slot,
            offsets,
            read_errors,
        ) {
            Ok(found) => found,
            Err((overflow, found)) => {
                let ghost stopped = looks.push(found@);
                assert(stopped.drop_last() =~= looks);
                return Err((overflow, Ghost(stopped)));
            },
        };
        let ghost filtered_before = contents(filtered_packet_batches@);
        let ghost before = looks;
        let ghost taken = all.take(i + 1);
        proof {
            looks = looks.push(found@);
            assert(taken.drop_last() =~= all.take(i as int));
            assert(taken.last() == batches@[i as int]@);
            lemma_all_need_prefix(taken.drop_last(), before, looks, offsets);
            assert forall|j: int| 0 <= j < taken.len() implies batch_looked_up(
                #[trigger] taken[j],
                looks[j],
                *clusters,
                *store,
                *current_slot,
                offsets,
            ) by {
                if j < i {
                    assert(taken[j] == all.take(i as int)[j]);
                }
            }
            assert(read_errors@ =~= old(read_errors)@ + all_errors(taken, looks));
        }
        if packet_batch.len() != 0 {
            filtered_packet_batches.push(PacketBatch::new(packet_batch));
            assert(contents(filtered_packet_batches@) =~= filtered_before.push(packet_batch@));
        }
        i += 1;
    }
    assert(all.take(i as int) =~= all);
    Ok((filtered_packet_batches, Ghost(looks)))
}

/// What goes out of a batch depends only on what was looked at for its own packets.
pub proof fn lemma_batch_needs_prefix(
    packets: Seq<Packet>,
    a: Seq<Seq<Look>>,
    b: Seq<Seq<Look>>,
    offsets: LeaderOffsets,
)
    requires
        packets.len() <= a.len(),
        packets.len() <= b.len(),
        forall|i: int| 0 <= i < packets.len() ==> a[i] == b[i],
    ensures
        admitted(packets, a, offsets) == admitted(packets, b, offsets),
        batch_errors(packets, a) == batch_errors(packets, b),
    decreases packets.len(),
{
    if packets.len() > 0 {
        lemma_batch_needs_prefix(packets.drop_last(), a, b, offsets);
    }
}

/// What goes out of the batches depends only on what was looked at for these batches.
pub proof fn lemma_all_need_prefix(
    batches: Seq<Seq<Packet>>,
    a: Seq<Seq<Seq<Look>>>,
    b: Seq<Seq<Seq<Look>>>,
    offsets: LeaderOffsets,
)
    requires
        batches.len() <= a.len(),
        batches.len() <= b.len(),
        forall|i: int| 0 <= i < batches.len() ==> a[i] == b[i],
    ensures
        protected(batches, a, offsets) == protected(batches, b, offsets),
        all_errors(batches, a) == all_errors(batches, b),
    decreases batches.len(),
{
    if batches.len() > 0 {
        lemma_all_need_prefix(batches.drop_last(), a, b, offsets);
    }
}

} // verus!
