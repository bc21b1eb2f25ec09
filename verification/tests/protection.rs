use std::collections::HashMap;
use std::sync::{Arc, RwLock};

use dashmap::DashMap;
use forwarder::clusters::{is_at, ClustersTpus};
use forwarder::metrics::{BlockEngineSend, ForwarderMetrics};
use forwarder::packet::{
    num_packets, BankingPacketBatch, IpAddr, Meta, Packet, PacketBatch, SigverifyTracerPacketStats,
    SocketAddr,
};
use forwarder::protection::{forward_packet_batch_to_block_engine, Forwarding};
use forwarder::validators::{
    admit_for_cluster, same_key, LeaderOffsets, LeaderScheduleUpdatingHandle, Pubkey, ReadError,
    StoreRead, ValidatorSet, ValidatorStore, WindowOverflow,
};
use solana_sdk::signature::Keypair;
use solana_sdk::signer::Signer;
use tokio::sync::mpsc::error::TrySendError;

const ANYWHERE: SocketAddr = SocketAddr::V4 { ipv4: 0, port: 0 };

const OFFSETS: LeaderOffsets = LeaderOffsets { before: 32, after: 32 };

fn packet_from(addr: IpAddr, port: u16, first_byte: u8) -> Packet {
    let mut packet = Packet::default();
    packet.buffer[0] = first_byte;
    packet.meta = Meta { size: 1, addr, port, flags: 0 };
    packet
}

fn v4(ipv4: u32, port: u16) -> SocketAddr {
    SocketAddr::V4 { ipv4, port }
}

fn schedule_of(entries: &[(u64, Pubkey)]) -> ValidatorStore {
    let mut schedule: HashMap<u64, Pubkey> = HashMap::new();
    for (slot, key) in entries {
        schedule.insert(*slot, *key);
    }
    ValidatorStore::LeaderSchedule(LeaderScheduleUpdatingHandle {
        schedule: Arc::new(RwLock::new(schedule)),
    })
}

fn named(keys: &[Pubkey]) -> ValidatorStore {
    let mut set = ValidatorSet::new();
    for key in keys {
        set.insert(*key);
    }
    ValidatorStore::UserDefined(set)
}

/// The first bytes of the packets of each batch that is to be sent.
fn first_bytes(forwarding: &Forwarding) -> Vec<Vec<u8>> {
    match &forwarding.packets {
        Some(packets) => packets
            .banking_packet_batch
            .0
            .iter()
            .map(|batch| (0..batch.len()).map(|i| batch.get(i).buffer[0]).collect())
            .collect(),
        None => vec![],
    }
}

/// Two default packets and an empty batch, sent on to a queue as a forwarder thread does it.
fn forward_default_packets(
    validator_store: &ValidatorStore,
    clusters_tpus_cache: &ClustersTpus,
) -> (Forwarding, ForwarderMetrics) {
    let (block_engine_sender, _block_engine_receiver) = tokio::sync::mpsc::channel(100);
    let current_slot = Arc::new(RwLock::new(315));
    let banking_packet_batch: BankingPacketBatch = Arc::new((
        vec![
            PacketBatch::new(vec![Packet::default(), Packet::default()]),
            PacketBatch::default(),
        ],
        Some(SigverifyTracerPacketStats::default()),
    ));
    let mut forwarder_metrics = ForwarderMetrics::new(0, 0, 0);
    let forwarding = forward_packet_batch_to_block_engine(
        &banking_packet_batch,
        validator_store,
        clusters_tpus_cache,
        &current_slot,
        LeaderOffsets { before: 32, after: 32 },
        true,
        1333,
    )
    .unwrap();
    let send = match &forwarding.packets {
        None => BlockEngineSend::Filtered,
        Some(packets) => {
            match block_engine_sender.try_send(packets.banking_packet_batch.clone()) {
                Ok(_) => BlockEngineSend::Sent,
                Err(TrySendError::Full(_)) => BlockEngineSend::Full,
                Err(TrySendError::Closed(_)) => BlockEngineSend::Closed,
            }
        }
    };
    forwarder_metrics.record_block_engine_send(send, 13);
    (forwarding, forwarder_metrics)
}

#[test]
fn test_forward_banking_packet_batch_to_block_engine_with_validator_protection_and_leader_schedule()
{
    let keypair = Keypair::new();
    let key: Pubkey = keypair.pubkey().to_bytes();

    let clusters_tpus_cache = Arc::new(DashMap::new());
    clusters_tpus_cache.insert(key, (Some(ANYWHERE), Some(ANYWHERE)));

    let schedules: Arc<RwLock<HashMap<u64, Pubkey>>> = Arc::new(RwLock::new(HashMap::new()));
    for i in 315 - 32..315 + 32 {
        schedules.write().unwrap().insert(i, key);
    }
    let validator_store =
        ValidatorStore::LeaderSchedule(LeaderScheduleUpdatingHandle { schedule: schedules });

    let (forwarding, metrics) = forward_default_packets(&validator_store, &clusters_tpus_cache);
    // One copy of each packet for each of the sixty-four slots.
    let sent = forwarding.packets.as_ref().unwrap();
    assert_eq!(sent.banking_packet_batch.0.len(), 1);
    assert_eq!(sent.banking_packet_batch.0[0].len(), 128);
    assert_eq!(sent.banking_packet_batch.1, Some(SigverifyTracerPacketStats::default()));
    assert_eq!(sent.expiration, 1333);
    assert!(forwarding.read_errors.is_empty());
    assert_eq!(metrics.num_be_packets_forwarded, 13);
    assert_eq!(metrics.num_be_packets_dropped, 0);
}

#[test]
fn test_forward_banking_packet_batch_to_block_engine_with_validator_protection_and_user_defined() {
    let keypair = Keypair::new();
    let key: Pubkey = keypair.pubkey().to_bytes();

    let clusters_tpus_cache = Arc::new(DashMap::new());
    clusters_tpus_cache.insert(key, (Some(ANYWHERE), Some(ANYWHERE)));

    let mut user_defined_validators = ValidatorSet::new();
    user_defined_validators.insert(key);
    let validator_store = ValidatorStore::UserDefined(user_defined_validators);

    let (forwarding, metrics) = forward_default_packets(&validator_store, &clusters_tpus_cache);
    let sent = forwarding.packets.as_ref().unwrap();
    assert_eq!(sent.banking_packet_batch.0.len(), 1);
    assert_eq!(sent.banking_packet_batch.0[0].len(), 2);
    assert_eq!(sent.expiration, 1333);
    assert_eq!(metrics.num_be_packets_forwarded, 13);
}

#[test]
fn without_protection_the_same_batches_go() {
    let batch: BankingPacketBatch = Arc::new((
        vec![PacketBatch::new(vec![packet_from(IpAddr::V4(9), 9, 1)]), PacketBatch::default()],
        None,
    ));
    let forwarding = forward_packet_batch_to_block_engine(
        &batch,
        &named(&[]),
        &DashMap::new(),
        &RwLock::new(0),
        OFFSETS,
        false,
        7,
    )
    .unwrap();
    let sent = forwarding.packets.as_ref().unwrap();
    assert!(Arc::ptr_eq(&sent.banking_packet_batch, &batch));
    assert_eq!(sent.expiration, 7);
    assert!(forwarding.read_errors.is_empty());
}

#[test]
fn without_protection_nothing_goes_of_no_batches() {
    let batch: BankingPacketBatch = Arc::new((vec![], None));
    let forwarding = forward_packet_batch_to_block_engine(
        &batch,
        &named(&[]),
        &DashMap::new(),
        &RwLock::new(0),
        OFFSETS,
        false,
        7,
    )
    .unwrap();
    assert!(forwarding.packets.is_none());
}

#[test]
fn packets_are_filtered_by_sender_in_order() {
    let inside: Pubkey = [1; 32];
    let outside: Pubkey = [2; 32];
    let clusters: ClustersTpus = DashMap::new();
    clusters.insert(inside, (Some(v4(10, 1)), Some(v4(10, 2))));
    clusters.insert(outside, (Some(v4(20, 1)), None));
    let batch: BankingPacketBatch = Arc::new((
        vec![
            PacketBatch::new(vec![
                packet_from(IpAddr::V4(10), 2, 1),
                packet_from(IpAddr::V4(20), 1, 2),
                packet_from(IpAddr::V4(10), 1, 3),
                packet_from(IpAddr::V4(10), 3, 4),
            ]),
            PacketBatch::new(vec![packet_from(IpAddr::V4(20), 1, 5)]),
            PacketBatch::new(vec![packet_from(IpAddr::V4(10), 1, 6)]),
        ],
        None,
    ));
    let forwarding = forward_packet_batch_to_block_engine(
        &batch,
        &named(&[inside]),
        &clusters,
        &RwLock::new(0),
        OFFSETS,
        true,
        0,
    )
    .unwrap();
    assert_eq!(first_bytes(&forwarding), vec![vec![1, 3], vec![6]]);
    assert_eq!(num_packets(&batch.0), Some(6));
}

#[test]
fn nothing_goes_if_all_is_filtered() {
    let clusters: ClustersTpus = DashMap::new();
    clusters.insert([1; 32], (Some(v4(10, 1)), None));
    let batch: BankingPacketBatch =
        Arc::new((vec![PacketBatch::new(vec![packet_from(IpAddr::V4(10), 1, 1)])], None));
    let forwarding = forward_packet_batch_to_block_engine(
        &batch,
        &named(&[[3; 32]]),
        &clusters,
        &RwLock::new(0),
        OFFSETS,
        true,
        0,
    )
    .unwrap();
    assert!(forwarding.packets.is_none());
    assert!(forwarding.read_errors.is_empty());
}

#[test]
fn one_copy_for_each_node_at_the_address() {
    let a: Pubkey = [1; 32];
    let b: Pubkey = [2; 32];
    let c: Pubkey = [3; 32];
    let clusters: ClustersTpus = DashMap::new();
    for key in [a, b, c] {
        clusters.insert(key, (None, Some(v4(10, 1))));
    }
    let batch: BankingPacketBatch =
        Arc::new((vec![PacketBatch::new(vec![packet_from(IpAddr::V4(10), 1, 1)])], None));
    let forwarding = forward_packet_batch_to_block_engine(
        &batch,
        &named(&[a, c]),
        &clusters,
        &RwLock::new(0),
        OFFSETS,
        true,
        0,
    )
    .unwrap();
    assert_eq!(first_bytes(&forwarding), vec![vec![1, 1]]);
}

#[test]
fn the_slots_near_the_current_one_count_without_the_last() {
    let key: Pubkey = [1; 32];
    let clusters: ClustersTpus = DashMap::new();
    clusters.insert(key, (Some(v4(10, 1)), None));
    let batch: BankingPacketBatch =
        Arc::new((vec![PacketBatch::new(vec![packet_from(IpAddr::V4(10), 1, 1)])], None));
    let copies = |slot: u64| {
        let forwarding = forward_packet_batch_to_block_engine(
            &batch,
            &schedule_of(&[(slot, key)]),
            &clusters,
            &RwLock::new(100),
            LeaderOffsets { before: 2, after: 3 },
            true,
            0,
        )
        .unwrap();
        first_bytes(&forwarding).len()
    };
    assert_eq!(copies(97), 0);
    assert_eq!(copies(98), 1);
    assert_eq!(copies(102), 1);
    assert_eq!(copies(103), 0);
}

#[test]
fn a_slot_of_another_leader_does_not_count() {
    let key: Pubkey = [1; 32];
    let clusters: ClustersTpus = DashMap::new();
    clusters.insert(key, (Some(v4(10, 1)), None));
    let batch: BankingPacketBatch =
        Arc::new((vec![PacketBatch::new(vec![packet_from(IpAddr::V4(10), 1, 1)])], None));
    let mut other = key;
    other[31] = 2;
    let forwarding = forward_packet_batch_to_block_engine(
        &batch,
        &schedule_of(&[(99, other), (100, key), (101, key)]),
        &clusters,
        &RwLock::new(100),
        OFFSETS,
        true,
        0,
    )
    .unwrap();
    assert_eq!(first_bytes(&forwarding), vec![vec![1, 1]]);
}

#[test]
fn a_slot_too_near_either_end_is_an_error() {
    let key: Pubkey = [1; 32];
    let clusters: ClustersTpus = DashMap::new();
    clusters.insert(key, (Some(v4(10, 1)), None));
    let batch: BankingPacketBatch =
        Arc::new((vec![PacketBatch::new(vec![packet_from(IpAddr::V4(10), 1, 1)])], None));
    for slot in [31, u64::MAX - 31] {
        let forwarding = forward_packet_batch_to_block_engine(
            &batch,
            &schedule_of(&[]),
            &clusters,
            &RwLock::new(slot),
            OFFSETS,
            true,
            0,
        );
        assert_eq!(forwarding.unwrap_err(), WindowOverflow { current_slot: slot });
    }
    for slot in [32, u64::MAX - 32] {
        let forwarding = forward_packet_batch_to_block_engine(
            &batch,
            &schedule_of(&[]),
            &clusters,
            &RwLock::new(slot),
            OFFSETS,
            true,
            0,
        );
        assert!(forwarding.is_ok());
    }
}

/// Has a task panic while it holds the lock.
fn poison<T: Send + Sync + 'static>(lock: &Arc<RwLock<T>>) {
    let lock = lock.clone();
    let runtime = tokio::runtime::Builder::new_current_thread().build().unwrap();
    let writer = runtime.spawn(async move {
        let _guard = lock.write().unwrap();
        panic!("poisons the lock");
    });
    assert!(runtime.block_on(writer).is_err());
}

#[test]
fn a_lock_that_cannot_be_read_filters_and_is_reported_for_each_match() {
    let key: Pubkey = [1; 32];
    let clusters: ClustersTpus = DashMap::new();
    clusters.insert(key, (Some(v4(10, 1)), None));
    let batch: BankingPacketBatch = Arc::new((
        vec![PacketBatch::new(vec![
            packet_from(IpAddr::V4(10), 1, 1),
            packet_from(IpAddr::V4(11), 1, 2),
            packet_from(IpAddr::V4(10), 1, 3),
        ])],
        None,
    ));
    let schedule: Arc<RwLock<HashMap<u64, Pubkey>>> = Arc::new(RwLock::new(HashMap::new()));
    schedule.write().unwrap().insert(100, key);
    let current_slot = Arc::new(RwLock::new(100));
    let store = ValidatorStore::LeaderSchedule(LeaderScheduleUpdatingHandle {
        schedule: schedule.clone(),
    });
    let forward = || {
        forward_packet_batch_to_block_engine(
            &batch,
            &store,
            &clusters,
            &current_slot,
            OFFSETS,
            true,
            0,
        )
        .unwrap()
    };
    assert_eq!(first_bytes(&forward()), vec![vec![1, 3]]);
    poison(&current_slot);
    assert_eq!(forward().read_errors, vec![ReadError::CurrentSlot, ReadError::CurrentSlot]);
    assert!(forward().packets.is_none());
    poison(&schedule);
    assert_eq!(forward().read_errors, vec![ReadError::LeaderSchedule, ReadError::LeaderSchedule]);
}

#[test]
fn a_cluster_is_admitted_by_what_the_store_gave() {
    let key: Pubkey = [1; 32];
    let packet = packet_from(IpAddr::V4(10), 1, 1);
    let mut schedule: HashMap<u64, Pubkey> = HashMap::new();
    schedule.insert(5, key);
    schedule.insert(6, key);
    schedule.insert(7, [2; 32]);
    let offsets = LeaderOffsets { before: 5, after: 3 };
    let mut out: Vec<Packet> = vec![];
    let mut errors: Vec<ReadError> = vec![];

    let read = StoreRead::Leaders { schedule: &schedule, current_slot: 5 };
    assert_eq!(admit_for_cluster(&packet, &key, &read, offsets, &mut out, &mut errors), Ok(()));
    assert_eq!(out.len(), 2);
    assert_eq!(out[1].buffer[0], 1);

    let read = StoreRead::Leaders { schedule: &schedule, current_slot: 4 };
    assert_eq!(
        admit_for_cluster(&packet, &key, &read, offsets, &mut out, &mut errors),
        Err(WindowOverflow { current_slot: 4 })
    );
    assert_eq!(out.len(), 2);
    assert!(errors.is_empty());

    let read = StoreRead::Unreadable(ReadError::CurrentSlot);
    assert_eq!(admit_for_cluster(&packet, &key, &read, offsets, &mut out, &mut errors), Ok(()));
    assert_eq!(out.len(), 2);
    assert_eq!(errors, vec![ReadError::CurrentSlot]);
}

#[test]
fn a_set_holds_each_key_once() {
    let mut set = ValidatorSet::new();
    assert!(!set.contains(&[1; 32]));
    assert!(set.insert([1; 32]));
    assert!(!set.insert([1; 32]));
    assert!(set.contains(&[1; 32]));
    assert!(!set.contains(&[2; 32]));
    assert!(same_key(&[1; 32], &[1; 32]));
    assert!(!same_key(&[1; 32], &[2; 32]));
}

#[test]
fn addresses_are_compared_whole() {
    let meta = Meta { size: 0, addr: IpAddr::V6(5), port: 8, flags: 0 };
    let addr = SocketAddr::V6 { ipv6: 5, port: 8, flowinfo: 0, scope_id: 0 };
    assert_eq!(meta.socket_addr(), addr);
    let scoped = SocketAddr::V6 { ipv6: 5, port: 8, flowinfo: 0, scope_id: 1 };
    assert!(is_at(&([0; 32], (None, Some(addr))), addr));
    assert!(is_at(&([0; 32], (Some(addr), None)), addr));
    assert!(!is_at(&([0; 32], (Some(scoped), None)), addr));
    assert!(!is_at(&([0; 32], (None, None)), addr));
    assert_eq!(SocketAddr::new(IpAddr::V4(5), 8), v4(5, 8));
}

#[test]
fn nothing_goes_of_empty_batches() {
    let batch: BankingPacketBatch =
        Arc::new((vec![PacketBatch::default(), PacketBatch::default()], None));
    let forwarding = forward_packet_batch_to_block_engine(
        &batch,
        &schedule_of(&[]),
        &DashMap::new(),
        &RwLock::new(0),
        OFFSETS,
        true,
        0,
    )
    .unwrap();
    assert!(forwarding.packets.is_none());
    assert!(forwarding.read_errors.is_empty());
}

#[test]
fn wider_offsets_let_out_no_fewer_copies() {
    let key: Pubkey = [1; 32];
    let packet = packet_from(IpAddr::V4(10), 1, 1);
    let mut schedule: HashMap<u64, Pubkey> = HashMap::new();
    for slot in [90, 95, 100, 105] {
        schedule.insert(slot, key);
    }
    let copies = |before: u64, after: u64| {
        let mut out: Vec<Packet> = vec![];
        let read = StoreRead::Leaders { schedule: &schedule, current_slot: 100 };
        let offsets = LeaderOffsets { before, after };
        admit_for_cluster(&packet, &key, &read, offsets, &mut out, &mut vec![]).unwrap();
        out.len()
    };
    assert_eq!(copies(0, 0), 0);
    assert_eq!(copies(0, 1), 1);
    assert_eq!(copies(5, 1), 2);
    assert_eq!(copies(10, 6), 4);
}

#[test]
fn the_same_nodes_in_another_order_let_out_the_same() {
    let batch: BankingPacketBatch = Arc::new((
        vec![PacketBatch::new(vec![
            packet_from(IpAddr::V4(10), 1, 1),
            packet_from(IpAddr::V4(10), 2, 2),
        ])],
        None,
    ));
    let forward = |keys: Vec<u8>| {
        let clusters: ClustersTpus = DashMap::new();
        for key in keys {
            clusters.insert([key; 32], (Some(v4(10, 1)), Some(v4(10, u16::from(key)))));
        }
        let store = schedule_of(&[(100, [2; 32]), (101, [2; 32]), (102, [3; 32])]);
        let slot = RwLock::new(100);
        let forwarding = forward_packet_batch_to_block_engine(
            &batch, &store, &clusters, &slot, OFFSETS, true, 0,
        );
        first_bytes(&forwarding.unwrap())
    };
    assert_eq!(forward(vec![1, 2, 3]), vec![vec![1, 1, 1, 2, 2]]);
    assert_eq!(forward(vec![3, 2, 1]), vec![vec![1, 1, 1, 2, 2]]);
}

#[test]
fn leaders_just_outside_the_window_do_not_count() {
    let key: Pubkey = Keypair::new().pubkey().to_bytes();
    let clusters: ClustersTpus = DashMap::new();
    clusters.insert(key, (Some(ANYWHERE), None));
    let batch: BankingPacketBatch =
        Arc::new((vec![PacketBatch::new(vec![Packet::default()])], None));
    let forward = |entries: &[(u64, Pubkey)]| {
        let store = schedule_of(entries);
        let slot = RwLock::new(315);
        forward_packet_batch_to_block_engine(&batch, &store, &clusters, &slot, OFFSETS, true, 1333)
            .unwrap()
    };
    assert!(forward(&[(282, key), (347, key)]).packets.is_none());
    let inside = forward(&[(283, key), (346, key)]);
    assert_eq!(inside.packets.unwrap().banking_packet_batch.0[0].len(), 2);
    let mut metrics = ForwarderMetrics::new(0, 0, 0);
    metrics.record_block_engine_send(BlockEngineSend::Filtered, 1);
    assert_eq!(metrics, ForwarderMetrics::new(0, 0, 0));
}

#[test]
fn a_user_defined_store_has_no_regard_for_slots() {
    let key: Pubkey = [1; 32];
    let clusters: ClustersTpus = DashMap::new();
    clusters.insert(key, (Some(v4(10, 1)), None));
    clusters.insert([2; 32], (Some(v4(10, 1)), None));
    let batch: BankingPacketBatch = Arc::new((
        vec![PacketBatch::new(vec![
            packet_from(IpAddr::V4(10), 1, 1),
            packet_from(IpAddr::V4(11), 1, 2),
            packet_from(IpAddr::V4(10), 1, 3),
        ])],
        None,
    ));
    let store = named(&[key]);
    for (slot, after) in [(315, 32), (0, u64::MAX)] {
        let forwarding = forward_packet_batch_to_block_engine(
            &batch,
            &store,
            &clusters,
            &RwLock::new(slot),
            LeaderOffsets { before: 32, after },
            true,
            0,
        )
        .unwrap();
        assert_eq!(first_bytes(&forwarding), vec![vec![1, 3]]);
        assert!(forwarding.read_errors.is_empty());
    }
}

#[test]
fn a_slot_out_of_range_is_no_error_where_it_is_not_needed() {
    let key: Pubkey = [1; 32];
    let clusters: ClustersTpus = DashMap::new();
    clusters.insert(key, (Some(v4(10, 1)), None));
    let batch_from = |ipv4: u32| -> BankingPacketBatch {
        Arc::new((vec![PacketBatch::new(vec![packet_from(IpAddr::V4(ipv4), 1, 1)])], None))
    };
    let schedule: Arc<RwLock<HashMap<u64, Pubkey>>> = Arc::new(RwLock::new(HashMap::new()));
    let store = ValidatorStore::LeaderSchedule(LeaderScheduleUpdatingHandle {
        schedule: schedule.clone(),
    });
    let slot = RwLock::new(0);
    let forward = |ipv4: u32| {
        let batch = batch_from(ipv4);
        forward_packet_batch_to_block_engine(&batch, &store, &clusters, &slot, OFFSETS, true, 0)
    };
    // No packet comes from a node.
    let unknown = forward(11).unwrap();
    assert!(unknown.packets.is_none());
    assert!(unknown.read_errors.is_empty());
    assert_eq!(forward(10).unwrap_err(), WindowOverflow { current_slot: 0 });
    // The slot is not read where the schedule cannot be.
    poison(&schedule);
    let unread = forward(10).unwrap();
    assert!(unread.packets.is_none());
    assert_eq!(unread.read_errors, vec![ReadError::LeaderSchedule]);
}
