//! The validators whose packets are let through: those of the leader schedule around the current
//! slot, or those that the operator names.

use std::collections::HashMap;
use std::sync::{Arc, RwLock};

use vstd::prelude::*;

use crate::locks::{schedule_readings, slot_readings};
use crate::packet::Packet;

verus! {

broadcast use vstd::std_specs::hash::group_hash_axioms;

/// The identity of a validator.
pub type Pubkey = [u8; 32];

/// Whether two identities are the same.
pub fn same_key(a: &Pubkey, b: &Pubkey) -> (same: bool)
    ensures
        same == (*a == *b),
{
    let mut i: usize = 0;
    while i < 32
        invariant
            i <= 32,
            forall|j: int| 0 <= j < i ==> a[j] == b[j],
        decreases 32 - i,
    {
        if a[i] != b[i] {
            return false;
        }
        i += 1;
    }
    assert(a@ =~= b@);
    assert(*a =~= *b);
    true
}

/// A set of validators. No key is held twice.
#[derive(Debug)]
pub struct ValidatorSet {
    keys: Vec<Pubkey>,
}

impl View for ValidatorSet {
    type V = Set<Pubkey>;

    closed spec fn view(&self) -> Set<Pubkey> {
        self.keys@.to_set()
    }
}

impl ValidatorSet {
    /// No key is held twice.
    pub closed spec fn wf(&self) -> bool {
        self.keys@.no_duplicates()
    }

    pub fn new() -> (set: ValidatorSet)
        ensures
            set.wf(),
            set@ == Set::<Pubkey>::empty(),
    {
        let set = ValidatorSet { keys: Vec::new() };
        assert(set@ =~= Set::<Pubkey>::empty());
        set
    }

    pub fn contains(&self, key: &Pubkey) -> (found: bool)
        ensures
            found == self@.contains(*key),
    {
        let mut i: usize = 0;
        while i < self.keys.len()
            invariant
                i <= self.keys.len(),
                forall|j: int| 0 <= j < i ==> self.keys@[j] != *key,
            decreases self.keys.len() - i,
        {
            if same_key(&self.keys[i], key) {
                assert(self.keys@.contains(*key));
                return true;
            }
            i += 1;
        }
        false
    }

    /// Adds a key and says whether it was new.
    pub fn insert(&mut self, key: Pubkey) -> (new: bool)
        requires
            old(self).wf(),
        ensures
            final(self).wf(),
            final(self)@ == old(self)@.insert(key),
            new == !old(self)@.contains(key),
    {
        if self.contains(&key) {
            assert(self@ =~= old(self)@.insert(key));
            return false;
        }
        self.keys.push(key);
        proof {
            let before = old(self).keys@;
            assert forall|k: Pubkey| self@.contains(k) == old(self)@.insert(key).contains(k) by {
                if before.contains(k) {
                    let j = choose|j: int| 0 <= j < before.len() && before[j] == k;
                    assert(self.keys@[j] == k);
                }
                if k == key {
                    assert(self.keys@[before.len() as int] == k);
                }
            }
            assert(self@ =~= old(self)@.insert(key));
            assert forall|i: int, j: int|
                0 <= i < self.keys@.len() && 0 <= j < self.keys@.len() && i
                    != j implies self.keys@[i] != self.keys@[j] by {
                if i == before.len() {
                    assert(before.contains(before[j]));
                } else if j == before.len() {
                    assert(before.contains(before[i]));
                }
            }
        }
        true
    }
}

/// A view of the leader schedule, by slot, that another thread keeps up to date.
#[derive(Debug)]
pub struct LeaderScheduleUpdatingHandle {
    pub schedule: Arc<RwLock<HashMap<u64, Pubkey>>>,
}

/// Where the validators whose packets are let through are looked up.
#[derive(Debug)]
pub enum ValidatorStore {
    LeaderSchedule(LeaderScheduleUpdatingHandle),
    UserDefined(ValidatorSet),
}

/// A lock that could not be read because a writer panicked.
#[derive(Clone, Copy, PartialEq, Eq, Structural, Debug)]
pub enum ReadError {
    LeaderSchedule,
    CurrentSlot,
}

/// The slots around `current_slot` do not all fit in a `u64`.
#[derive(Clone, Copy, PartialEq, Eq, Structural, Debug)]
pub struct WindowOverflow {
    pub current_slot: u64,
}

/// What one look at a validator store gave.
pub enum StoreReading {
    Unreadable(ReadError),
    Leaders { schedule: Map<u64, Pubkey>, current_slot: u64 },
    UserDefined(Set<Pubkey>),
}

/// What one look at a validator store gives access to.
#[derive(Debug)]
pub enum StoreRead<'a> {
    Unreadable(ReadError),
    Leaders { schedule: &'a HashMap<u64, Pubkey>, current_slot: u64 },
    UserDefined(&'a ValidatorSet),
}

impl<'a> View for StoreRead<'a> {
    type V = StoreReading;

    open spec fn view(&self) -> StoreReading {
        match self {
            StoreRead::Unreadable(error) => StoreReading::Unreadable(*error),
            StoreRead::Leaders { schedule, current_slot } => StoreReading::Leaders {
                schedule: schedule@,
                current_slot: *current_slot,
            },
            StoreRead::UserDefined(validators) => StoreReading::UserDefined(validators@),
        }
    }
}

/// How many slots before the current one, and from the current one on, count as near it.
#[derive(Clone, Copy, Debug)]
pub struct LeaderOffsets {
    pub before: u64,
    pub after: u64,
}

/// Some read of the leader schedule gives a schedule.
pub open spec fn readable(handle: LeaderScheduleUpdatingHandle) -> bool {
    exists|schedule: Map<u64, Pubkey>| #[trigger]
        schedule_readings(*handle.schedule).contains(Some(schedule))
}

impl StoreReading {
    /// This is what a look at `store`, with the current slot in the lock `slot`, may give. Each part
    /// of it is an outcome that reading the lock in question has; a look at a set that the operator
    /// defined gives that set. The slot is read only after a schedule was.
    pub open spec fn taken_from(self, store: ValidatorStore, slot: RwLock<u64>) -> bool {
        match store {
            ValidatorStore::LeaderSchedule(handle) => match self {
                StoreReading::Unreadable(ReadError::LeaderSchedule) => schedule_readings(
                    *handle.schedule,
                ).contains(None),
                StoreReading::Unreadable(ReadError::CurrentSlot) => {
                    &&& readable(handle)
                    &&& slot_readings(slot).contains(None)
                },
                StoreReading::Leaders { schedule, current_slot } => {
                    &&& schedule_readings(*handle.schedule).contains(Some(schedule))
                    &&& slot_readings(slot).contains(Some(current_slot))
                },
                StoreReading::UserDefined(_) => false,
            },
            ValidatorStore::UserDefined(validators) => self == StoreReading::UserDefined(
                validators@,
            ),
        }
    }

    /// The slots near the current one, as far as the look gave one, all fit in a `u64`.
    pub open spec fn window_fits(self, offsets: LeaderOffsets) -> bool {
        self matches StoreReading::Leaders { current_slot, .. } ==> {
            &&& offsets.before <= current_slot
            &&& current_slot + offsets.after <= u64::MAX
        }
    }

    /// How many copies of a packet go out for a cluster node with this key: one for each slot near
    /// the current one that the node leads, or one if the operator named the node.
    pub open spec fn copies(self, key: Pubkey, offsets: LeaderOffsets) -> nat {
        match self {
            StoreReading::Unreadable(_) => 0,
            StoreReading::Leaders { schedule, current_slot } => led_slots(
                schedule,
                key,
                current_slot - offsets.before,
                current_slot + offsets.after,
            ).len(),
            StoreReading::UserDefined(validators) => if validators.contains(key) {
                1
            } else {
                0
            },
        }
    }

    /// The read error that the look met, if any.
    pub open spec fn errors(self) -> Seq<ReadError> {
        match self {
            StoreReading::Unreadable(error) => seq![error],
            _ => Seq::empty(),
        }
    }
}

/// The slots from `start` up to but without `end` that the validator `key` leads.
pub open spec fn led_slots(schedule: Map<u64, Pubkey>, key: Pubkey, start: int, end: int) -> Set<
    u64,
> {
    Set::new(
        |slot: u64| start <= slot < end && schedule.contains_key(slot) && schedule[slot] == key,
    )
}

/// A finite number of slots is led in each range, and each further slot adds itself if it is led.
pub proof fn lemma_led_slots_step(schedule: Map<u64, Pubkey>, key: Pubkey, start: int, end: u64)
    requires
        led_slots(schedule, key, start, end as int).finite(),
        start <= end,
    ensures
        led_slots(schedule, key, start, end + 1).finite(),
        led_slots(schedule, key, start, end + 1).len() == led_slots(
            schedule,
            key,
            start,
            end as int,
        ).len() + (if schedule.contains_key(end) && schedule[end] == key {
            1nat
        } else {
            0nat
        }),
{
    let before = led_slots(schedule, key, start, end as int);
    let after = led_slots(schedule, key, start, end + 1);
    if schedule.contains_key(end) && schedule[end] == key {
        assert(after =~= before.insert(end));
    } else {
        assert(after =~= before);
    }
}

/// `n` copies of a packet.
pub open spec fn repeated(packet: Packet, n: nat) -> Seq<Packet> {
    Seq::new(n, |i: int| packet)
}

/// Appends a copy of `packet` for each slot from `start` up to but without `end` that `key` leads.
fn push_for_led_slots(
    packet: &Packet,
    key: &Pubkey,
    schedule: &HashMap<u64, Pubkey>,
    start: u64,
    end: u64,
    packet_batch: &mut Vec<Packet>,
)
    ensures
        final(packet_batch)@ == old(packet_batch)@ + repeated(
            *packet,
            led_slots(schedule@, *key, start as int, end as int).len(),
        ),
{
    let mut slot: u64 = start;
    proof {
        let none = led_slots(schedule@, *key, start as int, start as int);
        assert(none =~= Set::<u64>::empty());
        assert(packet_batch@ =~= old(packet_batch)@ + repeated(*packet, none.len()));
        if end < start {
            assert(led_slots(schedule@, *key, start as int, end as int) =~= none);
        }
    }
    while slot < end
        invariant
            start <= slot,
            start <= end ==> slot <= end,
            led_slots(schedule@, *key, start as int, slot as int).finite(),
            packet_batch@ == old(packet_batch)@ + repeated(
                *packet,
                led_slots(schedule@, *key, start as int, slot as int).len(),
            ),
            end < start ==> slot == start,
        decreases end - slot,
    {
        proof {
            lemma_led_slots_step(schedule@, *key, start as int, slot);
        }
        if let Some(leader) = schedule.get(&slot) {
            if same_key(key, leader) {
                packet_batch.push(*packet);
            }
        }
        assert(packet_batch@ =~= old(packet_batch)@ + repeated(
            *packet,
            led_slots(schedule@, *key, start as int, slot + 1).len(),
        ));
        slot += 1;
    }
}

/// Appends the copies of `packet` that go out for a cluster node with the key `key`, and the read
/// error if there was one. Leaves both as they are if the slots near the current one do not all
/// fit in a `u64`.
pub fn admit_for_cluster(
    packet: &Packet,
    key: &Pubkey,
    store: &StoreRead,
    offsets: LeaderOffsets,
    packet_batch: &mut Vec<Packet>,
    read_errors: &mut Vec<ReadError>,
) -> (admitted: Result<(), WindowOverflow>)
    ensures
        admitted is Ok <==> store@.window_fits(offsets),
        admitted is Ok ==> {
            &&& final(packet_batch)@ == old(packet_batch)@ + repeated(
                *packet,
                store@.copies(*key, offsets),
            )
            &&& final(read_errors)@ == old(read_errors)@ + store@.errors()
        },
        admitted matches Err(overflow) ==> {
            &&& store@ matches StoreReading::Leaders { current_slot, .. }
            &&& overflow.current_slot == current_slot
            &&& final(packet_batch)@ == old(packet_batch)@
            &&& final(read_errors)@ == old(read_errors)@
        },
{
    match store {
        StoreRead::Unreadable(error) => {
            read_errors.push(*error);
            assert(packet_batch@ =~= old(packet_batch)@ + repeated(*packet, 0));
        },
        StoreRead::Leaders { schedule, current_slot } => {
            if *current_slot < offsets.before || offsets.after > u64::MAX - *current_slot {
                return Err(WindowOverflow { current_slot: *current_slot });
            }
            let start = *current_slot - offsets.before;
            let end = *current_slot + offsets.after;
            push_for_led_slots(packet, key, schedule, start, end, packet_batch);
            assert(read_errors@ =~= old(read_errors)@ + store@.errors());
        },
        StoreRead::UserDefined(validators) => {
            if validators.contains(key) {
                packet_batch.push(*packet);
            }
            assert(packet_batch@ =~= old(packet_batch)@ + repeated(
                *packet,
                store@.copies(*key, offsets),
            ));
            assert(read_errors@ =~= old(read_errors)@ + store@.errors());
        },
    }
    Ok(())
}

/// What a look gives access to is seen as it is: the very error, the whole schedule with the very
/// slot, or the operator's whole set.
pub proof fn law_reading_is_seen_whole(read: StoreRead)
    ensures
        read matches StoreRead::Unreadable(error) ==> read@ == StoreReading::Unreadable(error),
        read matches StoreRead::Leaders { schedule, current_slot } ==> read@ == (
        StoreReading::Leaders { schedule: schedule@, current_slot }),
        read matches StoreRead::UserDefined(validators) ==> read@ == StoreReading::UserDefined(
            validators@,
        ),
{
}

} // verus!
