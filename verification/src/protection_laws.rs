//! What protection promises, whatever the looks at the cluster map and the validator store gave.

use std::sync::RwLock;

use vstd::prelude::*;

use crate::clusters::{cluster_walks, takes_at, ClusterEntry, ClustersTpus};
use crate::locks::{schedule_readings, slot_readings};
use crate::packet::{contents, Packet, SigverifyTracerPacketStats, SocketAddr};
use crate::protection::{
    admitted, all_errors, all_looked_up, all_stopped_at, batch_errors, batch_looked_up, copies,
    entries, known, lemma_all_need_prefix, lemma_batch_needs_prefix, looked_up, overflows,
    packet_errors, protected, Forwarding, Look,
};
use crate::validators::{
    led_slots, readable, repeated, LeaderOffsets, LeaderScheduleUpdatingHandle, Pubkey, ReadError,
    StoreReading, ValidatorStore, WindowOverflow,
};

verus! {

/// The packet of `addr` goes out because of this look: it comes from the node, and the node's
/// validator is let through.
pub open spec fn lets_through(look: Look, addr: SocketAddr, offsets: LeaderOffsets) -> bool {
    &&& takes_at(look.cluster, addr)
    &&& match look.store {
        StoreReading::Unreadable(_) => false,
        StoreReading::Leaders { schedule, current_slot } => exists|slot: u64|
            current_slot - offsets.before <= slot < current_slot + offsets.after
                && #[trigger] schedule.contains_key(slot) && schedule[slot] == look.cluster.0,
        StoreReading::UserDefined(validators) => validators.contains(look.cluster.0),
    }
}

/// Only finitely many slots of a range are led.
pub proof fn lemma_led_slots_finite(
    schedule: Map<u64, Pubkey>,
    key: Pubkey,
    start: int,
    end: int,
)
    ensures
        led_slots(schedule, key, start, end).finite(),
    decreases end - start,
{
    if end <= start {
        assert(led_slots(schedule, key, start, end) =~= Set::<u64>::empty());
    } else {
        lemma_led_slots_finite(schedule, key, start, end - 1);
        let fewer = led_slots(schedule, key, start, end - 1);
        let slot = (end - 1) as u64;
        if slot == end - 1 && schedule.contains_key(slot) && schedule[slot] == key {
            assert(led_slots(schedule, key, start, end) =~= fewer.insert(slot));
        } else {
            assert(led_slots(schedule, key, start, end) =~= fewer);
        }
    }
}

/// A copy goes out because of a look exactly if the look lets the packet through.
pub proof fn law_look_lets_through(look: Look, addr: SocketAddr, offsets: LeaderOffsets)
    ensures
        look.copies(addr, offsets) > 0 <==> lets_through(look, addr, offsets),
{
    if let StoreReading::Leaders { schedule, current_slot } = look.store {
        let start = current_slot - offsets.before;
        let end = current_slot + offsets.after;
        let led = led_slots(schedule, look.cluster.0, start, end);
        lemma_led_slots_finite(schedule, look.cluster.0, start, end);
        if led.len() > 0 {
            let slot = led.choose();
            assert(led.contains(slot));
            assert(schedule.contains_key(slot));
        }
        if lets_through(look, addr, offsets) {
            let slot = choose|slot: u64|
                start <= slot < end && #[trigger] schedule.contains_key(slot) && schedule[slot]
                    == look.cluster.0;
            assert(led.contains(slot));
        }
    }
}

/// A packet goes out exactly if some look lets it through.
pub proof fn law_packet_goes_out(addr: SocketAddr, looks: Seq<Look>, offsets: LeaderOffsets)
    ensures
        copies(addr, looks, offsets) > 0 <==> exists|i: int|
            0 <= i < looks.len() && lets_through(#[trigger] looks[i], addr, offsets),
    decreases looks.len(),
{
    if looks.len() > 0 {
        let fewer = looks.drop_last();
        law_packet_goes_out(addr, fewer, offsets);
        law_look_lets_through(looks.last(), addr, offsets);
        if copies(addr, fewer, offsets) > 0 {
            let i = choose|i: int|
                0 <= i < fewer.len() && lets_through(#[trigger] fewer[i], addr, offsets);
            assert(lets_through(looks[i], addr, offsets));
        }
        if exists|i: int| 0 <= i < looks.len() && lets_through(#[trigger] looks[i], addr, offsets) {
            let i = choose|i: int|
                0 <= i < looks.len() && lets_through(#[trigger] looks[i], addr, offsets);
            if i < fewer.len() {
                assert(lets_through(fewer[i], addr, offsets));
            }
        }
    }
}

/// Nothing goes out for an address that no node of the cluster has.
pub proof fn law_unknown_sender_is_filtered(
    addr: SocketAddr,
    looks: Seq<Look>,
    offsets: LeaderOffsets,
)
    requires
        forall|i: int| 0 <= i < looks.len() ==> !takes_at((#[trigger] looks[i]).cluster, addr),
    ensures
        copies(addr, looks, offsets) == 0,
{
    law_packet_goes_out(addr, looks, offsets);
}

/// At a set that the operator defined, a packet goes out once for each node that it comes from and
/// that the operator named.
pub proof fn law_user_defined_copies(
    addr: SocketAddr,
    looks: Seq<Look>,
    validators: Set<Pubkey>,
    offsets: LeaderOffsets,
)
    requires
        forall|i: int|
            0 <= i < looks.len() && takes_at((#[trigger] looks[i]).cluster, addr)
                ==> looks[i].store == StoreReading::UserDefined(validators),
    ensures
        copies(addr, looks, offsets) == looks.filter(
            |look: Look| takes_at(look.cluster, addr) && validators.contains(look.cluster.0),
        ).len(),
    decreases looks.len(),
{
    let named = |look: Look|
        takes_at(look.cluster, addr) && validators.contains(look.cluster.0);
    reveal(Seq::filter);
    if looks.len() > 0 {
        let fewer = looks.drop_last();
        assert forall|i: int|
            0 <= i < fewer.len() && takes_at((#[trigger] fewer[i]).cluster, addr) implies
            fewer[i].store == StoreReading::UserDefined(validators) by {
            assert(fewer[i] == looks[i]);
        }
        law_user_defined_copies(addr, fewer, validators, offsets);
        assert(looks.last() == looks[looks.len() - 1]);
    }
}

/// A wider range of slots lets no fewer copies out.
pub proof fn law_wider_offsets_keep_copies(
    addr: SocketAddr,
    looks: Seq<Look>,
    narrow: LeaderOffsets,
    wide: LeaderOffsets,
)
    requires
        narrow.before <= wide.before,
        narrow.after <= wide.after,
    ensures
        copies(addr, looks, narrow) <= copies(addr, looks, wide),
    decreases looks.len(),
{
    if looks.len() > 0 {
        law_wider_offsets_keep_copies(addr, looks.drop_last(), narrow, wide);
        let look = looks.last();
        if let StoreReading::Leaders { schedule, current_slot } = look.store {
            let few = led_slots(
                schedule,
                look.cluster.0,
                current_slot - narrow.before,
                current_slot + narrow.after,
            );
            let start = current_slot - wide.before;
            let end = current_slot + wide.after;
            let many = led_slots(schedule, look.cluster.0, start, end);
            lemma_led_slots_finite(schedule, look.cluster.0, start, end);
            vstd::set_lib::lemma_len_subset(few, many);
        }
    }
}

/// Taking out one look takes out its copies, wherever it stands.
proof fn lemma_copies_remove(addr: SocketAddr, looks: Seq<Look>, i: int, offsets: LeaderOffsets)
    requires
        0 <= i < looks.len(),
    ensures
        copies(addr, looks, offsets) == copies(addr, looks.remove(i), offsets) + looks[i].copies(
            addr,
            offsets,
        ),
    decreases looks.len(),
{
    let fewer = looks.drop_last();
    if i < fewer.len() {
        lemma_copies_remove(addr, fewer, i, offsets);
        assert(looks.remove(i).drop_last() =~= fewer.remove(i));
        assert(looks.remove(i).last() == looks.last());
    } else {
        assert(looks.remove(i) =~= fewer);
    }
}

/// The order in which a walk meets the nodes does not matter: the same looks in another order let
/// out as many copies.
pub proof fn law_walk_order_is_irrelevant(
    addr: SocketAddr,
    a: Seq<Look>,
    b: Seq<Look>,
    offsets: LeaderOffsets,
)
    requires
        a.to_multiset() == b.to_multiset(),
    ensures
        copies(addr, a, offsets) == copies(addr, b, offsets),
    decreases a.len(),
{
    broadcast use vstd::seq_lib::group_to_multiset_ensures;

    assert(a.len() == a.to_multiset().len());
    assert(b.len() == b.to_multiset().len());
    if a.len() > 0 {
        let look = a.last();
        let i = a.len() - 1;
        assert(a.contains(a[i]));
        assert(a.to_multiset().count(look) > 0);
        assert(b.contains(look));
        let j = choose|j: int| 0 <= j < b.len() && b[j] == look;
        assert(a.remove(i).to_multiset() =~= a.to_multiset().remove(look));
        assert(b.remove(j).to_multiset() =~= b.to_multiset().remove(look));
        lemma_copies_remove(addr, a, i, offsets);
        lemma_copies_remove(addr, b, j, offsets);
        law_walk_order_is_irrelevant(addr, a.remove(i), b.remove(j), offsets);
    }
}

/// A packet stands in what goes out of a batch exactly if it stands in the batch, at a place where
/// some look lets it through. Nothing else goes out, and nothing in it is altered.
pub proof fn law_only_admitted_packets_go_out(
    packets: Seq<Packet>,
    looks: Seq<Seq<Look>>,
    offsets: LeaderOffsets,
    packet: Packet,
)
    ensures
        admitted(packets, looks, offsets).contains(packet) <==> exists|i: int|
            0 <= i < packets.len() && #[trigger] packets[i] == packet && copies(
                packet.meta.source(),
                looks[i],
                offsets,
            ) > 0,
    decreases packets.len(),
{
    let out = admitted(packets, looks, offsets);
    if packets.len() > 0 {
        let n = packets.len() - 1;
        let fewer = packets.drop_last();
        law_only_admitted_packets_go_out(fewer, looks, offsets, packet);
        let rest = admitted(fewer, looks, offsets);
        let num = copies(packets[n].meta.source(), looks[n], offsets);
        let added = repeated(packets[n], num);
        assert(out == rest + added);
        if out.contains(packet) {
            let k = choose|k: int| 0 <= k < out.len() && out[k] == packet;
            if k < rest.len() {
                assert(rest[k] == packet);
                assert(rest.contains(packet));
                let i = choose|i: int|
                    0 <= i < fewer.len() && #[trigger] fewer[i] == packet && copies(
                        packet.meta.source(),
                        looks[i],
                        offsets,
                    ) > 0;
                assert(packets[i] == packet);
            } else {
                assert(added[k - rest.len()] == packet);
                assert(packets[n] == packet);
            }
        }
        if exists|i: int|
            0 <= i < packets.len() && #[trigger] packets[i] == packet && copies(
                packet.meta.source(),
                looks[i],
                offsets,
            ) > 0 {
            let i = choose|i: int|
                0 <= i < packets.len() && #[trigger] packets[i] == packet && copies(
                    packet.meta.source(),
                    looks[i],
                    offsets,
                ) > 0;
            if i < n {
                assert(fewer[i] == packet);
                assert(rest.contains(packet));
                let k = choose|k: int| 0 <= k < rest.len() && rest[k] == packet;
                assert(out[k] == packet);
            } else {
                assert(out[rest.len() as int] == packet);
            }
        }
    }
}

/// No batch that goes out is empty, and no more batches go out than came in.
pub proof fn law_no_empty_batch_goes_out(
    batches: Seq<Seq<Packet>>,
    looks: Seq<Seq<Seq<Look>>>,
    offsets: LeaderOffsets,
)
    ensures
        protected(batches, looks, offsets).len() <= batches.len(),
        forall|i: int|
            0 <= i < protected(batches, looks, offsets).len() ==> (#[trigger] protected(
                batches,
                looks,
                offsets,
            )[i]).len() > 0,
    decreases batches.len(),
{
    if batches.len() > 0 {
        law_no_empty_batch_goes_out(batches.drop_last(), looks, offsets);
    }
}

/// The packet stands in one of the batches, and a look taken for it there lets it through.
pub open spec fn let_through_from(
    packet: Packet,
    batches: Seq<Seq<Packet>>,
    looks: Seq<Seq<Seq<Look>>>,
    offsets: LeaderOffsets,
) -> bool {
    exists|i: int, m: int, l: int|
        {
            &&& 0 <= i < batches.len()
            &&& 0 <= m < batches[i].len()
            &&& batches[i][m] == packet
            &&& 0 <= l < looks[i][m].len()
            &&& lets_through(#[trigger] looks[i][m][l], packet.meta.source(), offsets)
        }
}

/// Validators are protected: every packet that goes out came in from a node of the cluster whose
/// validator leads a slot near the current one, or was named by the operator.
pub proof fn law_every_packet_sent_was_let_through(
    batches: Seq<Seq<Packet>>,
    looks: Seq<Seq<Seq<Look>>>,
    offsets: LeaderOffsets,
    k: int,
    j: int,
)
    requires
        0 <= k < protected(batches, looks, offsets).len(),
        0 <= j < protected(batches, looks, offsets)[k].len(),
    ensures
        let_through_from(protected(batches, looks, offsets)[k][j], batches, looks, offsets),
    decreases batches.len(),
{
    let out = protected(batches, looks, offsets);
    let packet = out[k][j];
    let addr = packet.meta.source();
    let n = batches.len() - 1;
    let fewer = batches.drop_last();
    if k < protected(fewer, looks, offsets).len() {
        law_every_packet_sent_was_let_through(fewer, looks, offsets, k, j);
        let (i, m, l) = choose|i: int, m: int, l: int|
            {
                &&& 0 <= i < fewer.len()
                &&& 0 <= m < fewer[i].len()
                &&& fewer[i][m] == packet
                &&& 0 <= l < looks[i][m].len()
                &&& lets_through(#[trigger] looks[i][m][l], addr, offsets)
            };
        assert(batches[i][m] == packet && lets_through(looks[i][m][l], addr, offsets));
    } else {
        let admitted_here = admitted(batches[n], looks[n], offsets);
        assert(admitted_here[j] == packet);
        assert(admitted_here.contains(packet));
        law_only_admitted_packets_go_out(batches[n], looks[n], offsets, packet);
        let m = choose|m: int|
            0 <= m < batches[n].len() && #[trigger] batches[n][m] == packet && copies(
                addr,
                looks[n][m],
                offsets,
            ) > 0;
        law_packet_goes_out(addr, looks[n][m], offsets);
        let l = choose|l: int|
            0 <= l < looks[n][m].len() && lets_through(#[trigger] looks[n][m][l], addr, offsets);
        assert(batches[n][m] == packet && lets_through(looks[n][m][l], addr, offsets));
    }
}

/// Nothing goes out of batches that hold no packets.
pub proof fn law_nothing_goes_out_of_empty_batches(
    batches: Seq<Seq<Packet>>,
    looks: Seq<Seq<Seq<Look>>>,
    offsets: LeaderOffsets,
)
    requires
        forall|i: int| 0 <= i < batches.len() ==> (#[trigger] batches[i]).len() == 0,
    ensures
        protected(batches, looks, offsets).len() == 0,
        all_errors(batches, looks).len() == 0,
    decreases batches.len(),
{
    if batches.len() > 0 {
        let fewer = batches.drop_last();
        assert forall|i: int| 0 <= i < fewer.len() implies (#[trigger] fewer[i]).len() == 0 by {
            assert(fewer[i] == batches[i]);
        }
        law_nothing_goes_out_of_empty_batches(fewer, looks, offsets);
        assert(batches[batches.len() - 1].len() == 0);
    }
}

/// Batches are filtered one by one: what goes out of two runs of batches is what goes out of the
/// first, followed by what goes out of the second.
pub proof fn law_batches_are_filtered_apart(
    a: Seq<Seq<Packet>>,
    b: Seq<Seq<Packet>>,
    a_looks: Seq<Seq<Seq<Look>>>,
    b_looks: Seq<Seq<Seq<Look>>>,
    offsets: LeaderOffsets,
)
    requires
        a_looks.len() == a.len(),
        b_looks.len() == b.len(),
    ensures
        protected(a + b, a_looks + b_looks, offsets) == protected(a, a_looks, offsets) + protected(
            b,
            b_looks,
            offsets,
        ),
    decreases b.len(),
{
    if b.len() == 0 {
        assert(a + b =~= a);
        assert(a_looks + b_looks =~= a_looks);
        assert(protected(a, a_looks, offsets) + protected(b, b_looks, offsets) =~= protected(
            a,
            a_looks,
            offsets,
        ));
    } else {
        let fewer = b.drop_last();
        let fewer_looks = b_looks.drop_last();
        law_batches_are_filtered_apart(a, fewer, a_looks, fewer_looks, offsets);
        assert((a + b).drop_last() =~= a + fewer);
        lemma_all_need_prefix(
            a + fewer,
            a_looks + fewer_looks,
            a_looks + b_looks,
            offsets,
        );
        lemma_all_need_prefix(fewer, fewer_looks, b_looks, offsets);
        assert(protected(a + b, a_looks + b_looks, offsets) =~= protected(a, a_looks, offsets)
            + protected(b, b_looks, offsets));
    }
}

/// The looks that meet these nodes, in order, while every look at the validator store gives `store`.
pub open spec fn looks_of(nodes: Seq<ClusterEntry>, store: StoreReading) -> Seq<Look> {
    nodes.map_values(|cluster: ClusterEntry| Look { cluster, store })
}

/// How many copies of a packet from `addr` go out if these are the nodes of the cluster and every
/// look at the validator store gives `store`.
pub open spec fn node_copies(
    addr: SocketAddr,
    nodes: Seq<ClusterEntry>,
    store: StoreReading,
    offsets: LeaderOffsets,
) -> nat {
    copies(addr, looks_of(nodes, store), offsets)
}

/// `n(p)` copies of each packet `p`, in the order of the packets.
pub open spec fn repeated_each(packets: Seq<Packet>, n: spec_fn(Packet) -> nat) -> Seq<Packet>
    decreases packets.len(),
{
    if packets.len() == 0 {
        Seq::empty()
    } else {
        repeated_each(packets.drop_last(), n) + repeated(packets.last(), n(packets.last()))
    }
}

/// `n(p)` copies of each packet `p` in each batch, without the batches that this leaves empty.
pub open spec fn filtered(batches: Seq<Seq<Packet>>, n: spec_fn(Packet) -> nat) -> Seq<Seq<Packet>>
    decreases batches.len(),
{
    if batches.len() == 0 {
        Seq::empty()
    } else {
        let rest = filtered(batches.drop_last(), n);
        let out = repeated_each(batches.last(), n);
        if out.len() == 0 {
            rest
        } else {
            rest.push(out)
        }
    }
}

/// Wherever a packet from `addr` is looked up, the validator store gives `store`.
pub open spec fn reads_alike(addr: SocketAddr, looks: Seq<Look>, store: StoreReading) -> bool {
    forall|i: int|
        0 <= i < looks.len() && takes_at((#[trigger] looks[i]).cluster, addr) ==> looks[i].store
            == store
}

/// Where every look gives the same reading, the copies are those of the nodes that were met.
proof fn lemma_alike_copies(
    addr: SocketAddr,
    looks: Seq<Look>,
    store: StoreReading,
    offsets: LeaderOffsets,
)
    requires
        reads_alike(addr, looks, store),
    ensures
        copies(addr, looks, offsets) == node_copies(addr, entries(looks), store, offsets),
        !(store is Unreadable) ==> packet_errors(addr, looks).len() == 0,
    decreases looks.len(),
{
    if looks.len() > 0 {
        let fewer = looks.drop_last();
        assert forall|i: int|
            0 <= i < fewer.len() && takes_at((#[trigger] fewer[i]).cluster, addr) implies
            fewer[i].store == store by {
            assert(fewer[i] == looks[i]);
        }
        lemma_alike_copies(addr, fewer, store, offsets);
        assert(looks_of(entries(looks), store).drop_last() =~= looks_of(entries(fewer), store));
        assert(looks.last() == looks[looks.len() - 1]);
    }
}

/// A node is met as often by its looks as it stands among the nodes.
proof fn lemma_looks_of_count(nodes: Seq<ClusterEntry>, store: StoreReading, look: Look)
    ensures
        looks_of(nodes, store).to_multiset().count(look) == (if look.store == store {
            nodes.to_multiset().count(look.cluster)
        } else {
            0
        }),
    decreases nodes.len(),
{
    broadcast use vstd::seq_lib::group_to_multiset_ensures;

    let looks = looks_of(nodes, store);
    if nodes.len() == 0 {
        assert(looks.len() == looks.to_multiset().len());
        assert(nodes.len() == nodes.to_multiset().len());
    } else {
        let fewer = nodes.drop_last();
        lemma_looks_of_count(fewer, store, look);
        assert(nodes =~= fewer.push(nodes.last()));
        assert(looks =~= looks_of(fewer, store).push(Look { cluster: nodes.last(), store }));
    }
}

/// The same nodes in another order let out as many copies.
pub proof fn law_node_order_is_irrelevant(
    addr: SocketAddr,
    a: Seq<ClusterEntry>,
    b: Seq<ClusterEntry>,
    store: StoreReading,
    offsets: LeaderOffsets,
)
    requires
        a.to_multiset() == b.to_multiset(),
    ensures
        node_copies(addr, a, store, offsets) == node_copies(addr, b, store, offsets),
{
    let a_looks = looks_of(a, store);
    let b_looks = looks_of(b, store);
    assert forall|look: Look|
        a_looks.to_multiset().count(look) == b_looks.to_multiset().count(look) by {
        lemma_looks_of_count(a, store, look);
        lemma_looks_of_count(b, store, look);
    }
    assert(a_looks.to_multiset() =~= b_looks.to_multiset());
    law_walk_order_is_irrelevant(addr, a_looks, b_looks, offsets);
}

/// With as many copies of each packet as `n` says, what goes out of a batch is `n(p)` copies of each
/// packet `p`. If every reading succeeds, no read error is met.
proof fn lemma_admitted_repeats(
    packets: Seq<Packet>,
    looks: Seq<Seq<Look>>,
    offsets: LeaderOffsets,
    n: spec_fn(Packet) -> nat,
    read: bool,
)
    requires
        forall|m: int|
            #![trigger packets[m]]
            0 <= m < packets.len() ==> {
                &&& copies(packets[m].meta.source(), looks[m], offsets) == n(packets[m])
                &&& read ==> packet_errors(packets[m].meta.source(), looks[m]).len() == 0
            },
    ensures
        admitted(packets, looks, offsets) == repeated_each(packets, n),
        read ==> batch_errors(packets, looks).len() == 0,
    decreases packets.len(),
{
    if packets.len() > 0 {
        let fewer = packets.drop_last();
        assert forall|m: int| #![trigger fewer[m]] 0 <= m < fewer.len() implies {
            &&& copies(fewer[m].meta.source(), looks[m], offsets) == n(fewer[m])
            &&& read ==> packet_errors(fewer[m].meta.source(), looks[m]).len() == 0
        } by {
            assert(fewer[m] == packets[m]);
        }
        lemma_admitted_repeats(fewer, looks, offsets, n, read);
        assert(packets.last() == packets[packets.len() - 1]);
    }
}

/// With as many copies of each packet as `n` says, what goes out of all batches is `n(p)` copies of
/// each packet `p`. If every reading succeeds, no read error is met.
proof fn lemma_protected_repeats(
    batches: Seq<Seq<Packet>>,
    looks: Seq<Seq<Seq<Look>>>,
    offsets: LeaderOffsets,
    n: spec_fn(Packet) -> nat,
    read: bool,
)
    requires
        forall|i: int, m: int|
            #![trigger batches[i][m]]
            0 <= i < batches.len() && 0 <= m < batches[i].len() ==> {
                &&& copies(batches[i][m].meta.source(), looks[i][m], offsets) == n(batches[i][m])
                &&& read ==> packet_errors(batches[i][m].meta.source(), looks[i][m]).len() == 0
            },
    ensures
        protected(batches, looks, offsets) == filtered(batches, n),
        read ==> all_errors(batches, looks).len() == 0,
    decreases batches.len(),
{
    if batches.len() > 0 {
        let k = batches.len() - 1;
        let fewer = batches.drop_last();
        assert forall|i: int, m: int|
            #![trigger fewer[i][m]]
            0 <= i < fewer.len() && 0 <= m < fewer[i].len() implies {
            &&& copies(fewer[i][m].meta.source(), looks[i][m], offsets) == n(fewer[i][m])
            &&& read ==> packet_errors(fewer[i][m].meta.source(), looks[i][m]).len() == 0
        } by {
            assert(fewer[i][m] == batches[i][m]);
        }
        lemma_protected_repeats(fewer, looks, offsets, n, read);
        let last = batches[k];
        assert forall|m: int| #![trigger last[m]] 0 <= m < last.len() implies {
            &&& copies(last[m].meta.source(), looks[k][m], offsets) == n(last[m])
            &&& read ==> packet_errors(last[m].meta.source(), looks[k][m]).len() == 0
        } by {
            assert(last[m] == batches[k][m]);
        }
        lemma_admitted_repeats(last, looks[k], offsets, n, read);
    }
}

/// The walk for a packet from `addr` met these nodes, in some order, and wherever the packet was
/// looked up, the validator store gave `store`.
pub open spec fn saw(
    addr: SocketAddr,
    looks: Seq<Look>,
    nodes: Seq<ClusterEntry>,
    store: StoreReading,
) -> bool {
    &&& entries(looks).to_multiset() == nodes.to_multiset()
    &&& reads_alike(addr, looks, store)
}

/// If a call sees the same nodes and the same reading throughout, `n(p)` copies of each packet `p`
/// go out, with `n` counted over these nodes, and nothing else does: one copy for each slot near
/// the current one that a node at the packet's source leads, or one for each such node that the
/// operator named. Then no read error is met, unless the reading is one.
pub proof fn law_steady_filter(
    batches: Seq<Seq<Packet>>,
    looks: Seq<Seq<Seq<Look>>>,
    offsets: LeaderOffsets,
    nodes: Seq<ClusterEntry>,
    store: StoreReading,
)
    requires
        forall|i: int, m: int|
            0 <= i < batches.len() && 0 <= m < batches[i].len() ==> #[trigger] saw(
                batches[i][m].meta.source(),
                looks[i][m],
                nodes,
                store,
            ),
    ensures
        protected(batches, looks, offsets) == filtered(
            batches,
            |packet: Packet| node_copies(packet.meta.source(), nodes, store, offsets),
        ),
        !(store is Unreadable) ==> all_errors(batches, looks).len() == 0,
{
    let n = |packet: Packet| node_copies(packet.meta.source(), nodes, store, offsets);
    assert forall|i: int, m: int|
        #![trigger batches[i][m]]
        0 <= i < batches.len() && 0 <= m < batches[i].len() implies {
        &&& copies(batches[i][m].meta.source(), looks[i][m], offsets) == n(batches[i][m])
        &&& !(store is Unreadable) ==> packet_errors(
            batches[i][m].meta.source(),
            looks[i][m],
        ).len() == 0
    } by {
        let addr = batches[i][m].meta.source();
        assert(saw(addr, looks[i][m], nodes, store));
        lemma_alike_copies(addr, looks[i][m], store, offsets);
        law_node_order_is_irrelevant(addr, entries(looks[i][m]), nodes, store, offsets);
    }
    lemma_protected_repeats(batches, looks, offsets, n, !(store is Unreadable));
}

/// At a store that the operator defined, a call that meets the same nodes throughout lets out one
/// copy of each packet for each node at the packet's source that the operator named, and nothing
/// else. No read error is met.
pub proof fn law_user_defined_filter(
    batches: Seq<Seq<Packet>>,
    looks: Seq<Seq<Seq<Look>>>,
    clusters: ClustersTpus,
    store: ValidatorStore,
    slot: RwLock<u64>,
    offsets: LeaderOffsets,
    nodes: Seq<ClusterEntry>,
)
    requires
        store is UserDefined,
        all_looked_up(batches, looks, clusters, store, slot, offsets),
        forall|i: int, m: int|
            0 <= i < batches.len() && 0 <= m < batches[i].len() ==> (#[trigger] entries(
                looks[i][m],
            )).to_multiset() == nodes.to_multiset(),
    ensures
        protected(batches, looks, offsets) == filtered(
            batches,
            |packet: Packet|
                node_copies(
                    packet.meta.source(),
                    nodes,
                    StoreReading::UserDefined(store->UserDefined_0@),
                    offsets,
                ),
        ),
        all_errors(batches, looks).len() == 0,
{
    let reading = StoreReading::UserDefined(store->UserDefined_0@);
    assert forall|i: int, m: int|
        0 <= i < batches.len() && 0 <= m < batches[i].len() implies #[trigger] saw(
        batches[i][m].meta.source(),
        looks[i][m],
        nodes,
        reading,
    ) by {
        let addr = batches[i][m].meta.source();
        assert(batch_looked_up(batches[i], looks[i], clusters, store, slot, offsets));
        lemma_user_defined_reads_alike(addr, looks[i][m], clusters, store, slot, offsets);
        assert(entries(looks[i][m]).to_multiset() == nodes.to_multiset());
    }
    law_steady_filter(batches, looks, offsets, nodes, reading);
}

/// There is no cause to give up if every slot that the lock gives is in range.
pub proof fn law_slots_in_range_do_not_overflow(
    overflow: WindowOverflow,
    batches: Seq<Seq<Packet>>,
    clusters: ClustersTpus,
    store: ValidatorStore,
    slot: RwLock<u64>,
    offsets: LeaderOffsets,
)
    requires
        forall|current_slot: u64| #[trigger]
            slot_readings(slot).contains(Some(current_slot)) ==> offsets.before <= current_slot
                && current_slot + offsets.after <= u64::MAX,
    ensures
        !overflows(overflow, batches, clusters, store, slot, offsets),
{
}

/// There is no cause to give up if no read of the leader schedule gives one, whatever the slot.
pub proof fn law_unreadable_schedule_does_not_overflow(
    overflow: WindowOverflow,
    batches: Seq<Seq<Packet>>,
    clusters: ClustersTpus,
    handle: LeaderScheduleUpdatingHandle,
    slot: RwLock<u64>,
    offsets: LeaderOffsets,
)
    requires
        !readable(handle),
    ensures
        !overflows(
            overflow,
            batches,
            clusters,
            ValidatorStore::LeaderSchedule(handle),
            slot,
            offsets,
        ),
{
}

/// There is no cause to give up if no packet comes from a node of the cluster.
pub proof fn law_unknown_senders_do_not_overflow(
    overflow: WindowOverflow,
    batches: Seq<Seq<Packet>>,
    clusters: ClustersTpus,
    store: ValidatorStore,
    slot: RwLock<u64>,
    offsets: LeaderOffsets,
)
    requires
        forall|i: int, m: int|
            0 <= i < batches.len() && 0 <= m < batches[i].len() ==> !known(
                (#[trigger] batches[i][m]).meta.source(),
                clusters,
            ),
    ensures
        !overflows(overflow, batches, clusters, store, slot, offsets),
{
}

/// Wherever a packet from `addr` was looked up, the leader schedule or the current slot could not be
/// read.
pub open spec fn unreadable(addr: SocketAddr, looks: Seq<Look>) -> bool {
    forall|l: int|
        0 <= l < looks.len() && takes_at((#[trigger] looks[l]).cluster, addr) ==> looks[l].store
            is Unreadable
}

/// Protection fails closed: a call whose every look at the validator store fails does not give up,
/// and lets nothing out.
pub proof fn law_unreadable_store_lets_nothing_out(
    batches: Seq<Seq<Packet>>,
    looks: Seq<Seq<Seq<Look>>>,
    clusters: ClustersTpus,
    store: ValidatorStore,
    slot: RwLock<u64>,
    offsets: LeaderOffsets,
)
    requires
        forall|i: int, m: int|
            0 <= i < looks.len() && i < batches.len() && 0 <= m < looks[i].len() && m
                < batches[i].len() ==> #[trigger] unreadable(
                batches[i][m].meta.source(),
                looks[i][m],
            ),
    ensures
        forall|overflow: WindowOverflow|
            !(#[trigger] all_stopped_at(overflow, batches, looks, clusters, store, slot, offsets)),
        all_looked_up(batches, looks, clusters, store, slot, offsets) ==> protected(
            batches,
            looks,
            offsets,
        ).len() == 0,
{
    assert forall|overflow: WindowOverflow|
        !(#[trigger] all_stopped_at(overflow, batches, looks, clusters, store, slot, offsets)) by {
        if all_stopped_at(overflow, batches, looks, clusters, store, slot, offsets) {
            let i = looks.len() - 1;
            let m = looks[i].len() - 1;
            let seen = looks[i][m];
            assert(seen == looks.last().last());
            assert(unreadable(batches[i][m].meta.source(), looks[i][m]));
            assert(takes_at(seen[seen.len() - 1].cluster, batches[i][m].meta.source()));
        }
    }
    let out = protected(batches, looks, offsets);
    if all_looked_up(batches, looks, clusters, store, slot, offsets) && out.len() > 0 {
        law_no_empty_batch_goes_out(batches, looks, offsets);
        assert(out[0].len() > 0);
        law_every_packet_sent_was_let_through(batches, looks, offsets, 0, 0);
        let addr = out[0][0].meta.source();
        let (i, m, l) = choose|i: int, m: int, l: int|
            {
                &&& 0 <= i < batches.len()
                &&& 0 <= m < batches[i].len()
                &&& batches[i][m] == out[0][0]
                &&& 0 <= l < looks[i][m].len()
                &&& lets_through(#[trigger] looks[i][m][l], addr, offsets)
            };
        assert(batch_looked_up(batches[i], looks[i], clusters, store, slot, offsets));
        assert(unreadable(batches[i][m].meta.source(), looks[i][m]));
        assert(takes_at(looks[i][m][l].cluster, addr));
        assert(false);
    }
}

/// Both met the same nodes, in some order.
pub open spec fn same_nodes(a: Seq<Look>, b: Seq<Look>) -> bool {
    entries(a).to_multiset() == entries(b).to_multiset()
}

/// A user-defined store has no regard for slots: two calls on the same batches that differ only in
/// the lock of the current slot and in the offsets send the same and meet no read error, as far as
/// they meet the same nodes, in whatever order. Neither can fail.
pub proof fn law_user_defined_ignores_slots(
    batches: Seq<Seq<Packet>>,
    clusters: ClustersTpus,
    store: ValidatorStore,
    a_looks: Seq<Seq<Seq<Look>>>,
    a_slot: RwLock<u64>,
    a_offsets: LeaderOffsets,
    b_looks: Seq<Seq<Seq<Look>>>,
    b_slot: RwLock<u64>,
    b_offsets: LeaderOffsets,
)
    requires
        store is UserDefined,
        all_looked_up(batches, a_looks, clusters, store, a_slot, a_offsets),
        all_looked_up(batches, b_looks, clusters, store, b_slot, b_offsets),
        forall|i: int, m: int|
            0 <= i < batches.len() && 0 <= m < batches[i].len() ==> #[trigger] same_nodes(
                a_looks[i][m],
                b_looks[i][m],
            ),
    ensures
        protected(batches, a_looks, a_offsets) == protected(batches, b_looks, b_offsets),
        all_errors(batches, a_looks).len() == 0,
        all_errors(batches, b_looks).len() == 0,
        forall|overflow: WindowOverflow|
            !overflows(overflow, batches, clusters, store, a_slot, a_offsets) && !overflows(
                overflow,
                batches,
                clusters,
                store,
                b_slot,
                b_offsets,
            ),
    decreases batches.len(),
{
    if batches.len() > 0 {
        let k = batches.len() - 1;
        let fewer = batches.drop_last();
        lemma_looked_up_drop_last(batches, a_looks, clusters, store, a_slot, a_offsets);
        lemma_looked_up_drop_last(batches, b_looks, clusters, store, b_slot, b_offsets);
        let a_fewer = a_looks.drop_last();
        let b_fewer = b_looks.drop_last();
        assert forall|i: int, m: int|
            0 <= i < fewer.len() && 0 <= m < fewer[i].len() implies #[trigger] same_nodes(
            a_fewer[i][m],
            b_fewer[i][m],
        ) by {
            assert(same_nodes(a_looks[i][m], b_looks[i][m]));
        }
        law_user_defined_ignores_slots(
            fewer,
            clusters,
            store,
            a_fewer,
            a_slot,
            a_offsets,
            b_fewer,
            b_slot,
            b_offsets,
        );
        lemma_all_need_prefix(fewer, a_fewer, a_looks, a_offsets);
        lemma_all_need_prefix(fewer, b_fewer, b_looks, b_offsets);
        let last = batches[k];
        let validators = store->UserDefined_0@;
        assert(batch_looked_up(last, a_looks[k], clusters, store, a_slot, a_offsets));
        assert(batch_looked_up(last, b_looks[k], clusters, store, b_slot, b_offsets));
        assert forall|m: int| #![trigger last[m]] 0 <= m < last.len() implies {
            &&& copies(last[m].meta.source(), a_looks[k][m], a_offsets) == copies(
                last[m].meta.source(),
                b_looks[k][m],
                b_offsets,
            )
            &&& packet_errors(last[m].meta.source(), a_looks[k][m]).len() == 0
            &&& packet_errors(last[m].meta.source(), b_looks[k][m]).len() == 0
        } by {
            let addr = last[m].meta.source();
            assert(same_nodes(a_looks[k][m], b_looks[k][m]));
            lemma_user_defined_reads_alike(
                addr,
                a_looks[k][m],
                clusters,
                store,
                a_slot,
                a_offsets,
            );
            lemma_user_defined_reads_alike(
                addr,
                b_looks[k][m],
                clusters,
                store,
                b_slot,
                b_offsets,
            );
            let reading = StoreReading::UserDefined(validators);
            lemma_alike_copies(addr, a_looks[k][m], reading, a_offsets);
            lemma_alike_copies(addr, b_looks[k][m], reading, b_offsets);
            let a_nodes = entries(a_looks[k][m]);
            let b_nodes = entries(b_looks[k][m]);
            law_node_order_is_irrelevant(addr, a_nodes, b_nodes, reading, a_offsets);
            lemma_user_defined_needs_no_offsets(addr, b_nodes, validators, a_offsets, b_offsets);
        }
        lemma_same_copies(last, a_looks[k], a_offsets, b_looks[k], b_offsets);
    }
}

/// What was looked at for all batches serves for all but the last.
proof fn lemma_looked_up_drop_last(
    batches: Seq<Seq<Packet>>,
    looks: Seq<Seq<Seq<Look>>>,
    clusters: ClustersTpus,
    store: ValidatorStore,
    slot: RwLock<u64>,
    offsets: LeaderOffsets,
)
    requires
        batches.len() > 0,
        all_looked_up(batches, looks, clusters, store, slot, offsets),
    ensures
        all_looked_up(batches.drop_last(), looks.drop_last(), clusters, store, slot, offsets),
{
    let fewer = batches.drop_last();
    assert forall|i: int| 0 <= i < fewer.len() implies batch_looked_up(
        #[trigger] fewer[i],
        looks.drop_last()[i],
        clusters,
        store,
        slot,
        offsets,
    ) by {
        assert(fewer[i] == batches[i]);
    }
}

/// Every look at a user-defined store gives the operator's set.
proof fn lemma_user_defined_reads_alike(
    addr: SocketAddr,
    looks: Seq<Look>,
    clusters: ClustersTpus,
    store: ValidatorStore,
    slot: RwLock<u64>,
    offsets: LeaderOffsets,
)
    requires
        store is UserDefined,
        looked_up(addr, looks, clusters, store, slot, offsets),
    ensures
        reads_alike(addr, looks, StoreReading::UserDefined(store->UserDefined_0@)),
{
    assert forall|l: int|
        0 <= l < looks.len() && takes_at((#[trigger] looks[l]).cluster, addr) implies looks[l].store
        == StoreReading::UserDefined(store->UserDefined_0@) by {
        assert(takes_at(looks[l].cluster, addr));
        assert(looks[l].store.taken_from(store, slot));
    }
}

/// The copies at a set that the operator defined do not depend on the offsets.
proof fn lemma_user_defined_needs_no_offsets(
    addr: SocketAddr,
    nodes: Seq<ClusterEntry>,
    validators: Set<Pubkey>,
    a: LeaderOffsets,
    b: LeaderOffsets,
)
    ensures
        node_copies(addr, nodes, StoreReading::UserDefined(validators), a) == node_copies(
            addr,
            nodes,
            StoreReading::UserDefined(validators),
            b,
        ),
    decreases nodes.len(),
{
    if nodes.len() > 0 {
        let store = StoreReading::UserDefined(validators);
        lemma_user_defined_needs_no_offsets(addr, nodes.drop_last(), validators, a, b);
        assert(looks_of(nodes, store).drop_last() =~= looks_of(nodes.drop_last(), store));
    }
}

/// What goes out of a batch depends only on how many copies there are of each packet.
proof fn lemma_same_copies(
    packets: Seq<Packet>,
    a: Seq<Seq<Look>>,
    a_offsets: LeaderOffsets,
    b: Seq<Seq<Look>>,
    b_offsets: LeaderOffsets,
)
    requires
        forall|m: int|
            #![trigger packets[m]]
            0 <= m < packets.len() ==> {
                &&& copies(packets[m].meta.source(), a[m], a_offsets) == copies(
                    packets[m].meta.source(),
                    b[m],
                    b_offsets,
                )
                &&& packet_errors(packets[m].meta.source(), a[m]).len() == 0
                &&& packet_errors(packets[m].meta.source(), b[m]).len() == 0
            },
    ensures
        admitted(packets, a, a_offsets) == admitted(packets, b, b_offsets),
        batch_errors(packets, a).len() == 0,
        batch_errors(packets, b).len() == 0,
    decreases packets.len(),
{
    if packets.len() > 0 {
        let fewer = packets.drop_last();
        assert forall|m: int| #![trigger fewer[m]] 0 <= m < fewer.len() implies {
            &&& copies(fewer[m].meta.source(), a[m], a_offsets) == copies(
                fewer[m].meta.source(),
                b[m],
                b_offsets,
            )
            &&& packet_errors(fewer[m].meta.source(), a[m]).len() == 0
            &&& packet_errors(fewer[m].meta.source(), b[m]).len() == 0
        } by {
            assert(fewer[m] == packets[m]);
        }
        lemma_same_copies(fewer, a, a_offsets, b, b_offsets);
        assert(packets[packets.len() - 1] == packets.last());
    }
}

/// Each slot near the current one counts once: no copy goes out around an empty range of slots, and
/// one slot more at either end adds one copy exactly if the node leads that slot.
pub proof fn law_each_led_slot_lets_out_one_copy(
    schedule: Map<u64, Pubkey>,
    current_slot: u64,
    key: Pubkey,
    before: u64,
    after: u64,
)
    ensures
        ({
            let store = StoreReading::Leaders { schedule, current_slot };
            let num = store.copies(key, LeaderOffsets { before, after });
            &&& store.copies(key, LeaderOffsets { before: 0, after: 0 }) == 0
            &&& current_slot + after < u64::MAX ==> {
                let slot = (current_slot + after) as u64;
                store.copies(key, LeaderOffsets { before, after: (after + 1) as u64 }) == num + (
                if schedule.contains_key(slot) && schedule[slot] == key {
                    1nat
                } else {
                    0nat
                })
            }
            &&& before < current_slot ==> {
                let slot = (current_slot - before - 1) as u64;
                store.copies(key, LeaderOffsets { before: (before + 1) as u64, after }) == num + (
                if schedule.contains_key(slot) && schedule[slot] == key {
                    1nat
                } else {
                    0nat
                })
            }
        }),
{
    let start = current_slot - before;
    let end = current_slot + after;
    let led = led_slots(schedule, key, start, end);
    lemma_led_slots_finite(schedule, key, start, end);
    assert(led_slots(schedule, key, current_slot as int, current_slot as int) =~= Set::<
        u64,
    >::empty());
    if end < u64::MAX {
        let slot = end as u64;
        let more = led_slots(schedule, key, start, end + 1);
        if schedule.contains_key(slot) && schedule[slot] == key {
            assert(more =~= led.insert(slot));
        } else {
            assert(more =~= led);
        }
    }
    if before < current_slot {
        let slot = (start - 1) as u64;
        let more = led_slots(schedule, key, start - 1, end);
        if schedule.contains_key(slot) && schedule[slot] == key {
            assert(more =~= led.insert(slot));
        } else {
            assert(more =~= led);
        }
    }
}

/// How many of the slots a node leads, counted one by one.
pub open spec fn count_led(schedule: Map<u64, Pubkey>, key: Pubkey, slots: Seq<u64>) -> nat
    decreases slots.len(),
{
    if slots.len() == 0 {
        0
    } else {
        count_led(schedule, key, slots.drop_last()) + (if schedule.contains_key(slots.last())
            && schedule[slots.last()] == key {
            1nat
        } else {
            0nat
        })
    }
}

proof fn lemma_count_led(schedule: Map<u64, Pubkey>, key: Pubkey, start: int, n: nat)
    requires
        0 <= start,
        start + n <= u64::MAX,
    ensures
        count_led(schedule, key, Seq::new(n, |i: int| (start + i) as u64)) == led_slots(
            schedule,
            key,
            start,
            start + n,
        ).len(),
    decreases n,
{
    let slots = Seq::new(n, |i: int| (start + i) as u64);
    lemma_led_slots_finite(schedule, key, start, start + n);
    if n == 0 {
        assert(led_slots(schedule, key, start, start) =~= Set::<u64>::empty());
    } else {
        let fewer = (n - 1) as nat;
        lemma_count_led(schedule, key, start, fewer);
        assert(slots.drop_last() =~= Seq::new(fewer, |i: int| (start + i) as u64));
        lemma_led_slots_finite(schedule, key, start, start + fewer);
        let slot = (start + fewer) as u64;
        let led = led_slots(schedule, key, start, start + fewer);
        if schedule.contains_key(slot) && schedule[slot] == key {
            assert(led_slots(schedule, key, start, start + n) =~= led.insert(slot));
        } else {
            assert(led_slots(schedule, key, start, start + n) =~= led);
        }
    }
}

/// As many copies of a packet go out for a node at its source as the node leads slots from
/// `before` slots before the current one up to, but without, `after` slots after it.
pub proof fn law_copies_count_the_led_slots(
    look: Look,
    addr: SocketAddr,
    schedule: Map<u64, Pubkey>,
    current_slot: u64,
    offsets: LeaderOffsets,
)
    requires
        look.store == (StoreReading::Leaders { schedule, current_slot }),
        look.cluster.1.0 == Some(addr) || look.cluster.1.1 == Some(addr),
        offsets.before <= current_slot,
        current_slot + offsets.after <= u64::MAX,
    ensures
        look.copies(addr, offsets) == count_led(
            schedule,
            look.cluster.0,
            Seq::new(
                (offsets.before + offsets.after) as nat,
                |i: int| (current_slot - offsets.before + i) as u64,
            ),
        ),
        look.copies(addr, offsets) == look.store.copies(look.cluster.0, offsets),
{
    let start = current_slot - offsets.before;
    let n = (offsets.before + offsets.after) as nat;
    lemma_count_led(schedule, look.cluster.0, start, n);
    assert(Seq::new(n, |i: int| (current_slot - offsets.before + i) as u64) =~= Seq::new(
        n,
        |i: int| (start + i) as u64,
    ));
}

/// At an address that a node does not have, nothing goes out for it and no read error is met. At one
/// that it has, a set that the operator defined lets out one copy exactly if it names the node, and
/// a store that could not be read lets out none and is the one read error.
pub proof fn law_look_without_schedule(look: Look, addr: SocketAddr, offsets: LeaderOffsets)
    ensures
        ({
            let there = look.cluster.1.0 == Some(addr) || look.cluster.1.1 == Some(addr);
            let key = look.cluster.0;
            &&& takes_at(look.cluster, addr) <==> there
            &&& !there ==> look.copies(addr, offsets) == 0 && look.errors(addr).len() == 0
            &&& look.store matches StoreReading::UserDefined(validators) ==> {
                &&& look.store.copies(key, offsets) == if validators.contains(key) {
                    1nat
                } else {
                    0nat
                }
                &&& look.store.errors().len() == 0
            }
            &&& look.store matches StoreReading::Unreadable(error) ==> {
                &&& look.store.copies(key, offsets) == 0
                &&& look.store.errors() == seq![error]
            }
            &&& look.store is Leaders ==> look.store.errors().len() == 0
            &&& there ==> {
                &&& look.copies(addr, offsets) == look.store.copies(key, offsets)
                &&& look.errors(addr) == look.store.errors()
            }
        }),
{
}

/// The slots near the current one fit exactly if neither end goes beyond what a slot can be. Where
/// there is no current slot, there is nothing that could not fit.
pub proof fn law_window_fits_within_bounds(store: StoreReading, offsets: LeaderOffsets)
    ensures
        store matches StoreReading::Leaders { current_slot, .. } ==> (store.window_fits(offsets)
            <==> current_slot - offsets.before >= 0 && current_slot + offsets.after <= u64::MAX),
        !(store is Leaders) ==> store.window_fits(offsets),
{
}

/// `n` copies of a packet are `n` packets, each the same as the packet.
pub proof fn law_copies_are_unaltered(packet: Packet, n: nat)
    ensures
        repeated(packet, n).len() == n,
        forall|i: int| 0 <= i < n ==> #[trigger] repeated(packet, n)[i] == packet,
{
}

/// The looks for a packet count apart: two runs of looks let out the copies of both and meet the
/// read errors of the first and then of the second, and one look lets out its own and meets its own.
pub proof fn law_looks_count_apart(
    addr: SocketAddr,
    a: Seq<Look>,
    b: Seq<Look>,
    look: Look,
    offsets: LeaderOffsets,
)
    ensures
        copies(addr, Seq::empty(), offsets) == 0,
        packet_errors(addr, Seq::empty()).len() == 0,
        copies(addr, seq![look], offsets) == look.copies(addr, offsets),
        packet_errors(addr, seq![look]) == look.errors(addr),
        copies(addr, a + b, offsets) == copies(addr, a, offsets) + copies(addr, b, offsets),
        packet_errors(addr, a + b) == packet_errors(addr, a) + packet_errors(addr, b),
    decreases b.len(),
{
    assert(seq![look].drop_last() =~= Seq::<Look>::empty());
    assert(seq![look].last() == look);
    assert(copies(addr, seq![look].drop_last(), offsets) == 0);
    assert(packet_errors(addr, seq![look].drop_last()) =~= Seq::empty());
    assert(packet_errors(addr, seq![look]) =~= look.errors(addr));
    if b.len() == 0 {
        assert(a + b =~= a);
        assert(packet_errors(addr, a) + packet_errors(addr, b) =~= packet_errors(addr, a));
    } else {
        law_looks_count_apart(addr, a, b.drop_last(), look, offsets);
        assert((a + b).drop_last() =~= a + b.drop_last());
        assert((a + b).last() == b.last());
        assert(packet_errors(addr, a + b) =~= packet_errors(addr, a) + packet_errors(addr, b));
    }
}

/// What goes out of a batch of one packet is as many copies of it as its looks let out.
pub proof fn law_one_packet_is_repeated(packet: Packet, looks: Seq<Look>, offsets: LeaderOffsets)
    ensures
        admitted(Seq::empty(), Seq::empty(), offsets).len() == 0,
        admitted(seq![packet], seq![looks], offsets).len() == copies(
            packet.meta.source(),
            looks,
            offsets,
        ),
        forall|i: int|
            0 <= i < copies(packet.meta.source(), looks, offsets) ==> #[trigger] admitted(
                seq![packet],
                seq![looks],
                offsets,
            )[i] == packet,
        batch_errors(seq![packet], seq![looks]) == packet_errors(packet.meta.source(), looks),
{
    let one = seq![packet];
    let its = seq![looks];
    assert(one.drop_last() =~= Seq::<Packet>::empty());
    assert(admitted(one.drop_last(), its, offsets) =~= Seq::empty());
    assert(batch_errors(one.drop_last(), its) =~= Seq::empty());
    assert(one[0] == packet && its[0] == looks);
    assert(admitted(one, its, offsets) =~= repeated(
        packet,
        copies(packet.meta.source(), looks, offsets),
    ));
    assert(batch_errors(one, its) =~= packet_errors(packet.meta.source(), looks));
}

/// Packets are filtered one by one: what goes out of two runs of packets of a batch is what goes out
/// of the first, followed by what goes out of the second, and so are the read errors.
pub proof fn law_packets_are_filtered_apart(
    a: Seq<Packet>,
    b: Seq<Packet>,
    a_looks: Seq<Seq<Look>>,
    b_looks: Seq<Seq<Look>>,
    offsets: LeaderOffsets,
)
    requires
        a_looks.len() == a.len(),
        b_looks.len() == b.len(),
    ensures
        admitted(a + b, a_looks + b_looks, offsets) == admitted(a, a_looks, offsets) + admitted(
            b,
            b_looks,
            offsets,
        ),
        batch_errors(a + b, a_looks + b_looks) == batch_errors(a, a_looks) + batch_errors(
            b,
            b_looks,
        ),
    decreases b.len(),
{
    let looks = a_looks + b_looks;
    if b.len() == 0 {
        assert(a + b =~= a);
        assert(looks =~= a_looks);
        assert(admitted(a, a_looks, offsets) + admitted(b, b_looks, offsets) =~= admitted(
            a,
            a_looks,
            offsets,
        ));
        assert(batch_errors(a, a_looks) + batch_errors(b, b_looks) =~= batch_errors(a, a_looks));
    } else {
        let fewer = b.drop_last();
        let fewer_looks = b_looks.drop_last();
        law_packets_are_filtered_apart(a, fewer, a_looks, fewer_looks, offsets);
        assert((a + b).drop_last() =~= a + fewer);
        lemma_batch_needs_prefix(a + fewer, a_looks + fewer_looks, looks, offsets);
        lemma_batch_needs_prefix(fewer, fewer_looks, b_looks, offsets);
        assert(admitted(a + b, looks, offsets) =~= admitted(a, a_looks, offsets) + admitted(
            b,
            b_looks,
            offsets,
        ));
        assert(batch_errors(a + b, looks) =~= batch_errors(a, a_looks) + batch_errors(b, b_looks));
    }
}

/// Of one batch, what goes out of its packets goes out as one batch, or nothing does if that is
/// empty. The read errors are those of its packets.
pub proof fn law_one_batch_stays_one(
    packets: Seq<Packet>,
    looks: Seq<Seq<Look>>,
    offsets: LeaderOffsets,
)
    ensures
        protected(Seq::empty(), Seq::empty(), offsets).len() == 0,
        admitted(packets, looks, offsets).len() == 0 ==> protected(
            seq![packets],
            seq![looks],
            offsets,
        ).len() == 0,
        admitted(packets, looks, offsets).len() > 0 ==> protected(
            seq![packets],
            seq![looks],
            offsets,
        ) == seq![admitted(packets, looks, offsets)],
        all_errors(seq![packets], seq![looks]) == batch_errors(packets, looks),
{
    let one = seq![packets];
    let its = seq![looks];
    assert(one.drop_last() =~= Seq::<Seq<Packet>>::empty());
    assert(protected(one.drop_last(), its, offsets) =~= Seq::empty());
    assert(all_errors(one.drop_last(), its) =~= Seq::empty());
    assert(one[0] == packets && its[0] == looks);
    assert(all_errors(one, its) =~= batch_errors(packets, looks));
    if admitted(packets, looks, offsets).len() > 0 {
        assert(protected(one, its, offsets) =~= seq![admitted(packets, looks, offsets)]);
    }
}

/// Read errors are met batch by batch: those of two runs of batches are those of the first, followed
/// by those of the second.
pub proof fn law_read_errors_are_met_in_order(
    a: Seq<Seq<Packet>>,
    b: Seq<Seq<Packet>>,
    a_looks: Seq<Seq<Seq<Look>>>,
    b_looks: Seq<Seq<Seq<Look>>>,
)
    requires
        a_looks.len() == a.len(),
        b_looks.len() == b.len(),
    ensures
        all_errors(a + b, a_looks + b_looks) == all_errors(a, a_looks) + all_errors(b, b_looks),
    decreases b.len(),
{
    let looks = a_looks + b_looks;
    let offsets = LeaderOffsets { before: 0, after: 0 };
    if b.len() == 0 {
        assert(a + b =~= a);
        assert(looks =~= a_looks);
        assert(all_errors(a, a_looks) + all_errors(b, b_looks) =~= all_errors(a, a_looks));
    } else {
        let fewer = b.drop_last();
        let fewer_looks = b_looks.drop_last();
        law_read_errors_are_met_in_order(a, fewer, a_looks, fewer_looks);
        assert((a + b).drop_last() =~= a + fewer);
        lemma_all_need_prefix(a + fewer, a_looks + fewer_looks, looks, offsets);
        lemma_all_need_prefix(fewer, fewer_looks, b_looks, offsets);
        assert(all_errors(a + b, looks) =~= all_errors(a, a_looks) + all_errors(b, b_looks));
    }
}

/// The reading is an outcome of reading these very locks, with all slots near the current one in
/// range, or the operator's very set. The slot is read only where a schedule was.
pub open spec fn comes_from(
    reading: StoreReading,
    store: ValidatorStore,
    slot: RwLock<u64>,
    offsets: LeaderOffsets,
) -> bool {
    match (store, reading) {
        (
            ValidatorStore::LeaderSchedule(handle),
            StoreReading::Leaders { schedule, current_slot },
        ) => {
            &&& schedule_readings(*handle.schedule).contains(Some(schedule))
            &&& slot_readings(slot).contains(Some(current_slot))
            &&& current_slot - offsets.before >= 0
            &&& current_slot + offsets.after <= u64::MAX
        },
        (
            ValidatorStore::LeaderSchedule(handle),
            StoreReading::Unreadable(ReadError::LeaderSchedule),
        ) => schedule_readings(*handle.schedule).contains(None),
        (
            ValidatorStore::LeaderSchedule(handle),
            StoreReading::Unreadable(ReadError::CurrentSlot),
        ) => {
            &&& slot_readings(slot).contains(None)
            &&& exists|schedule: Map<u64, Pubkey>| #[trigger]
                schedule_readings(*handle.schedule).contains(Some(schedule))
        },
        (ValidatorStore::UserDefined(set), StoreReading::UserDefined(validators)) => set@
            == validators,
        _ => false,
    }
}

/// Every packet of every batch is looked up: one whole walk of this very map is met for it, with no
/// node twice, and for each node at the packet's source this very store was read.
pub proof fn law_every_packet_is_looked_up(
    batches: Seq<Seq<Packet>>,
    looks: Seq<Seq<Seq<Look>>>,
    clusters: ClustersTpus,
    store: ValidatorStore,
    slot: RwLock<u64>,
    offsets: LeaderOffsets,
    i: int,
    m: int,
)
    requires
        all_looked_up(batches, looks, clusters, store, slot, offsets),
        0 <= i < batches.len(),
        0 <= m < batches[i].len(),
    ensures
        looks.len() == batches.len(),
        looks[i].len() == batches[i].len(),
        ({
            let addr = batches[i][m].meta.source();
            let seen = looks[i][m];
            &&& cluster_walks(clusters).contains(Seq::new(seen.len(), |l: int| seen[l].cluster))
            &&& forall|k: int, l: int|
                0 <= k < l < seen.len() ==> (#[trigger] seen[k]).cluster.0 != (
                #[trigger] seen[l]).cluster.0
            &&& forall|l: int|
                0 <= l < seen.len() && ((#[trigger] seen[l]).cluster.1.0 == Some(addr)
                    || seen[l].cluster.1.1 == Some(addr)) ==> comes_from(
                    seen[l].store,
                    store,
                    slot,
                    offsets,
                )
        }),
{
    let addr = batches[i][m].meta.source();
    let seen = looks[i][m];
    assert(batch_looked_up(batches[i], looks[i], clusters, store, slot, offsets));
    assert(looked_up(addr, seen, clusters, store, slot, offsets));
    assert(entries(seen) =~= Seq::new(seen.len(), |l: int| seen[l].cluster));
    assert forall|l: int|
        0 <= l < seen.len() && ((#[trigger] seen[l]).cluster.1.0 == Some(addr)
            || seen[l].cluster.1.1 == Some(addr)) implies comes_from(
        seen[l].store,
        store,
        slot,
        offsets,
    ) by {
        assert(takes_at(seen[l].cluster, addr));
    }
}

/// A call gives up only for a slot that this very lock gives and that is out of range, with a leader
/// schedule that this very lock gives, and for a packet whose source is met by a walk of this very
/// map.
pub proof fn law_giving_up_needs_a_slot_out_of_range(
    overflow: WindowOverflow,
    batches: Seq<Seq<Packet>>,
    clusters: ClustersTpus,
    store: ValidatorStore,
    slot: RwLock<u64>,
    offsets: LeaderOffsets,
)
    requires
        overflows(overflow, batches, clusters, store, slot, offsets),
    ensures
        overflow.current_slot - offsets.before < 0 || overflow.current_slot + offsets.after
            > u64::MAX,
        slot_readings(slot).contains(Some(overflow.current_slot)),
        store matches ValidatorStore::LeaderSchedule(handle) && exists|schedule: Map<u64, Pubkey>|
         #[trigger] schedule_readings(*handle.schedule).contains(Some(schedule)),
        exists|i: int, m: int, walk: Seq<ClusterEntry>, l: int|
            #![trigger batches[i][m], cluster_walks(clusters).contains(walk), walk[l]]
            {
                &&& 0 <= i < batches.len()
                &&& 0 <= m < batches[i].len()
                &&& cluster_walks(clusters).contains(walk)
                &&& 0 <= l < walk.len()
                &&& walk[l].1.0 == Some(batches[i][m].meta.source()) || walk[l].1.1 == Some(
                    batches[i][m].meta.source(),
                )
            },
{
    let (i, m) = choose|i: int, m: int|
        0 <= i < batches.len() && 0 <= m < batches[i].len() && known(
            (#[trigger] batches[i][m]).meta.source(),
            clusters,
        );
    let addr = batches[i][m].meta.source();
    let (walk, l) = choose|walk: Seq<ClusterEntry>, l: int|
        #![trigger cluster_walks(clusters).contains(walk), walk[l]]
        cluster_walks(clusters).contains(walk) && 0 <= l < walk.len() && takes_at(walk[l], addr);
    assert(cluster_walks(clusters).contains(walk) && takes_at(walk[l], addr));
    assert(batches[i][m].meta.source() == addr);
}

/// Where a call gives up, every packet before was looked up whole. For the packet at hand the start of
/// a walk of this very map was met, and for each node at its source this very store was read, with
/// all slots in range but at the last. That one is at the packet's source and was looked up around
/// the very slot that the error names, which this very lock gives and which is out of range.
pub proof fn law_call_gives_up_at_the_first_misfit(
    overflow: WindowOverflow,
    batches: Seq<Seq<Packet>>,
    looks: Seq<Seq<Seq<Look>>>,
    clusters: ClustersTpus,
    store: ValidatorStore,
    slot: RwLock<u64>,
    offsets: LeaderOffsets,
)
    requires
        all_stopped_at(overflow, batches, looks, clusters, store, slot, offsets),
    ensures
        0 < looks.len() <= batches.len(),
        0 < looks.last().len() <= batches[looks.len() - 1].len(),
        looks.last().last().len() > 0,
        all_looked_up(
            batches.take(looks.len() - 1),
            looks.drop_last(),
            clusters,
            store,
            slot,
            offsets,
        ),
        batch_looked_up(
            batches[looks.len() - 1].take(looks.last().len() - 1),
            looks.last().drop_last(),
            clusters,
            store,
            slot,
            offsets,
        ),
        ({
            let addr = batches[looks.len() - 1][looks.last().len() - 1].meta.source();
            let seen = looks.last().last();
            let look = seen.last();
            &&& exists|walk: Seq<ClusterEntry>| #[trigger]
                cluster_walks(clusters).contains(walk) && seen.len() <= walk.len() && forall|l: int|
                    0 <= l < seen.len() ==> (#[trigger] seen[l]).cluster == walk[l]
            &&& forall|l: int|
                0 <= l < seen.len() - 1 && ((#[trigger] seen[l]).cluster.1.0 == Some(addr)
                    || seen[l].cluster.1.1 == Some(addr)) ==> comes_from(
                    seen[l].store,
                    store,
                    slot,
                    offsets,
                )
            &&& slot_readings(slot).contains(Some(overflow.current_slot))
            &&& look.cluster.1.0 == Some(addr) || look.cluster.1.1 == Some(addr)
            &&& look.store matches StoreReading::Leaders { current_slot, .. } && current_slot
                == overflow.current_slot
            &&& overflow.current_slot - offsets.before < 0 || overflow.current_slot + offsets.after
                > u64::MAX
        }),
{
    let addr = batches[looks.len() - 1][looks.last().len() - 1].meta.source();
    let seen = looks.last().last();
    let walk = choose|walk: Seq<ClusterEntry>| #[trigger]
        cluster_walks(clusters).contains(walk) && entries(seen).is_prefix_of(walk);
    assert forall|l: int| 0 <= l < seen.len() implies (#[trigger] seen[l]).cluster == walk[l] by {
        assert(entries(seen)[l] == walk[l]);
    }
    assert(cluster_walks(clusters).contains(walk));
    assert forall|l: int|
        0 <= l < seen.len() - 1 && ((#[trigger] seen[l]).cluster.1.0 == Some(addr)
            || seen[l].cluster.1.1 == Some(addr)) implies comes_from(
        seen[l].store,
        store,
        slot,
        offsets,
    ) by {
        assert(takes_at(seen[l].cluster, addr));
    }
    assert(takes_at(seen[seen.len() - 1].cluster, addr));
}

/// A message goes out exactly if there is something to send, and carries all of it, the statistics
/// and the expiration unaltered.
pub proof fn law_message_carries_everything(
    forwarding: Forwarding,
    out: Seq<Seq<Packet>>,
    stats: Option<SigverifyTracerPacketStats>,
    expiration: u32,
)
    requires
        forwarding.sends(out, stats, expiration),
    ensures
        forwarding.packets is Some <==> out.len() > 0,
        forwarding.packets matches Some(packets) ==> {
            &&& packets.banking_packet_batch.0@.len() == out.len()
            &&& forall|i: int|
                0 <= i < out.len() ==> (#[trigger] packets.banking_packet_batch.0@[i])@ == out[i]
            &&& packets.banking_packet_batch.1 == stats
            &&& packets.expiration == expiration
        },
{
    if let Some(packets) = forwarding.packets {
        let batches = packets.banking_packet_batch.0@;
        assert forall|i: int| 0 <= i < out.len() implies (#[trigger] batches[i])@ == out[i] by {
            assert(contents(batches)[i] == batches[i]@);
        }
    }
}

} // verus!
