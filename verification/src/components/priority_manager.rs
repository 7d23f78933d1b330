//! The priority manager: which scheduled messages hold a slot, who waits for
//! one, and what priority an unscheduled message to a peer is sent at.
use crate::components::priority_levels::{
    lemma_empty_count,
    lemma_empty_count_sort,
    lemma_empty_count_update,
    lemma_first_empty,
    lemma_position,
    lemma_sort_entries,
    sort_priority_levels,
    spec_entries_distinct,
    spec_empty_count,
    spec_entries_sorted,
    spec_entry_id,
    spec_first_empty,
    spec_holds_slot,
    spec_position,
    spec_sort_entries,
    PriorityLevelEntry,
};
use crate::components::wait_queue::{
    queue_new,
    queue_pop,
    queue_push,
    spec_nothing_queued,
    spec_queue_contents,
    WaitQueue,
};
use crate::components::workload_manager::spec_partitions;
use crate::config::{
    Config,
    PRIORITY_LEVEL_WIDTH,
    SCHEDULED_PRIORITY_LEVELS,
    UNSCHEDULED_PRIORITY_LEVELS,
    UNSCHEDULED_PRIORITY_PARTITIONS,
};
use std::collections::HashMap;
use std::collections::HashSet;
use vstd::prelude::*;

verus! {

broadcast use vstd::std_specs::hash::group_hash_axioms;

/// DSCP of the highest unscheduled band.
pub const HIGHEST_UNSCHEDULED_PRIORITY: u8 = 56;

/// An IPv4 address as one number, first octet highest.
pub open spec fn spec_address_key(address: Seq<u8>) -> u32 {
    (address[0] * 0x100_0000 + address[1] * 0x1_0000 + address[2] * 0x100 + address[3]) as u32
}

/// The first boundary that `message_length` does not exceed, or the number
/// of boundaries if it exceeds them all.
pub open spec fn spec_band(partitions: Seq<u64>, message_length: u64) -> int
    decreases partitions.len(),
{
    if partitions.len() == 0 {
        0
    } else {
        let inner = spec_band(partitions.drop_last(), message_length);
        if inner < partitions.len() - 1 {
            inner
        } else if message_length <= partitions.last() {
            partitions.len() - 1
        } else {
            partitions.len() as int
        }
    }
}

/// The DSCP of an unscheduled message of `message_length` bytes to a peer
/// that advertised `partitions`: 56 for the first band and 8 less for each
/// band after it. A peer that advertised nothing gets the even division of
/// the unscheduled window, and one band more beyond its last boundary.
pub open spec fn spec_unscheduled_priority(
    partitions: Option<Seq<u64>>,
    rtt_bytes: u64,
    message_length: u64,
) -> int {
    match partitions {
        Some(partitions) => {
            let band = spec_band(partitions, message_length);
            if band < partitions.len() {
                HIGHEST_UNSCHEDULED_PRIORITY - PRIORITY_LEVEL_WIDTH * band
            } else {
                HIGHEST_UNSCHEDULED_PRIORITY + PRIORITY_LEVEL_WIDTH - PRIORITY_LEVEL_WIDTH
                    * partitions.len()
            }
        },
        None => {
            let band = spec_band(spec_partitions(Seq::empty(), rtt_bytes), message_length);
            HIGHEST_UNSCHEDULED_PRIORITY - PRIORITY_LEVEL_WIDTH * band
        },
    }
}

/// The slots after the messages of `entries` have taken, one after the other,
/// the first slot that was still empty.
pub open spec fn spec_fill(
    slots: Seq<PriorityLevelEntry>,
    entries: Seq<(u64, u64)>,
) -> Seq<PriorityLevelEntry>
    decreases entries.len(),
{
    if entries.len() == 0 {
        slots
    } else {
        let inner = spec_fill(slots, entries.drop_last());
        if spec_first_empty(inner) < inner.len() {
            inner.update(spec_first_empty(inner), PriorityLevelEntry::Occupied(entries.last()))
        } else {
            inner
        }
    }
}

/// The message ids of `entries`.
pub open spec fn spec_ids(entries: Seq<(u64, u64)>) -> Set<u64> {
    Set::new(|id: u64| exists|k: int| 0 <= k < entries.len() && (#[trigger] entries[k]).0 == id)
}

/// The manager's state.
pub struct PriorityManager {
    /// Scheduled messages that wait for a slot, fewest remaining bytes first.
    queue: WaitQueue,
    /// Ids whose registration has not been answered yet.
    senders: HashSet<u64>,
    scheduled_priority_levels: [PriorityLevelEntry; SCHEDULED_PRIORITY_LEVELS],
    /// The partition vector each peer advertised last, by address.
    unscheduled_priority_partitions: HashMap<u32, [u64; UNSCHEDULED_PRIORITY_PARTITIONS]>,
    rtt_bytes: u64,
}

/// The manager's state as a mathematical value.
pub struct PriorityManagerView {
    pub queue: Map<(u64, u64), u64>,
    pub senders: Set<u64>,
    pub scheduled_priority_levels: Seq<PriorityLevelEntry>,
    pub unscheduled_priority_partitions: Map<u32, [u64; UNSCHEDULED_PRIORITY_PARTITIONS]>,
    pub rtt_bytes: u64,
}

impl PriorityManagerView {
    /// What holds between any two steps of the manager: every queued item is
    /// keyed by its remaining bytes, there is a slot for each scheduled
    /// level, no message holds two, and no message that holds one waits.
    pub open spec fn wf_pending(self) -> bool {
        &&& self.queue.dom().finite()
        &&& forall|item: (u64, u64)|
            self.queue.contains_key(item) ==> #[trigger] self.queue[item] == item.1
        &&& self.scheduled_priority_levels.len() == SCHEDULED_PRIORITY_LEVELS
        &&& spec_entries_distinct(self.scheduled_priority_levels)
        &&& forall|id: u64|
            self.senders.contains(id) ==> !#[trigger] spec_holds_slot(
                self.scheduled_priority_levels,
                id,
            )
    }

    /// What holds after every operation: besides the above, the slots are in
    /// order, and nothing is queued while a slot is empty.
    pub open spec fn wf(self) -> bool {
        &&& self.wf_pending()
        &&& spec_entries_sorted(self.scheduled_priority_levels)
        &&& self.has_empty_slot() ==> self.queue == spec_nothing_queued()
    }

    /// Whether a slot is empty.
    pub open spec fn has_empty_slot(self) -> bool {
        spec_first_empty(self.scheduled_priority_levels) < self.scheduled_priority_levels.len()
    }

    /// Shortest remaining first: nothing in the queue has fewer bytes
    /// remaining than a message that holds a slot.
    pub open spec fn srpt(self) -> bool {
        forall|i: int, item: (u64, u64)|
            0 <= i < self.scheduled_priority_levels.len() && #[trigger] self.queue.contains_key(
                item,
            ) ==> (#[trigger] spec_entry_id(self.scheduled_priority_levels[i]) is Some
                ==> self.scheduled_priority_levels[i]->Occupied_0.1 <= item.1)
    }

    /// Whether no message that holds a slot has more than `remaining` bytes
    /// left.
    pub open spec fn holders_within(self, remaining: u64) -> bool {
        forall|i: int|
            0 <= i < self.scheduled_priority_levels.len() && #[trigger] spec_entry_id(
                self.scheduled_priority_levels[i],
            ) is Some ==> self.scheduled_priority_levels[i]->Occupied_0.1 <= remaining
    }

    /// The state once message `id` waits with `remaining` bytes.
    pub open spec fn enqueued(self, id: u64, remaining: u64) -> PriorityManagerView {
        PriorityManagerView {
            queue: self.queue.insert((id, remaining), remaining),
            senders: self.senders.insert(id),
            ..self
        }
    }

    /// The state with slot `position` set to `entry`.
    pub open spec fn with_slot(self, position: int, entry: PriorityLevelEntry) -> PriorityManagerView {
        PriorityManagerView {
            scheduled_priority_levels: self.scheduled_priority_levels.update(position, entry),
            ..self
        }
    }

    /// The state with the slots put in order.
    pub open spec fn sorted(self) -> PriorityManagerView {
        PriorityManagerView {
            scheduled_priority_levels: spec_sort_entries(self.scheduled_priority_levels),
            ..self
        }
    }

    /// What an activation does: `activated` names, in the order they were
    /// taken from the queue, the waiting messages that got a slot.
    ///
    /// Each of them was queued and waiting, and waits no more; no message is
    /// among them twice. They fill the empty slots from the first on, and
    /// the slots are put in order: each of them holds a slot now, whoever
    /// held one still does, nobody else does, and as many slots fewer are
    /// empty as messages were activated. Nothing
    /// enters the queue; what left it without a slot was queued for a message
    /// that no longer waits. Whoever still waits has no fewer bytes remaining
    /// than any message that was activated, and waits only because no slot is
    /// empty.
    pub open spec fn activation(
        self,
        after: PriorityManagerView,
        activated: Seq<(u64, u64)>,
    ) -> bool {
        &&& after.scheduled_priority_levels == spec_sort_entries(
            spec_fill(self.scheduled_priority_levels, activated),
        )
        &&& forall|k: int|
            0 <= k < activated.len() ==> spec_holds_slot(
                after.scheduled_priority_levels,
                (#[trigger] activated[k]).0,
            )
        &&& forall|id: u64| #[trigger]
            spec_holds_slot(after.scheduled_priority_levels, id) <==> (spec_holds_slot(
                self.scheduled_priority_levels,
                id,
            ) || spec_ids(activated).contains(id))
        &&& spec_empty_count(after.scheduled_priority_levels) + activated.len()
            == spec_empty_count(self.scheduled_priority_levels)
        &&& after.unscheduled_priority_partitions == self.unscheduled_priority_partitions
        &&& after.rtt_bytes == self.rtt_bytes
        &&& after.senders == self.senders.difference(spec_ids(activated))
        &&& forall|k: int|
            0 <= k < activated.len() ==> self.queue.contains_key(#[trigger] activated[k])
                && self.senders.contains(activated[k].0) && !after.queue.contains_key(
                activated[k],
            )
        &&& forall|j: int, k: int|
            0 <= j < k < activated.len() ==> (#[trigger] activated[j]).0 != (
            #[trigger] activated[k]).0
        &&& forall|item: (u64, u64)| #[trigger]
            after.queue.contains_key(item) ==> self.queue.contains_key(item) && after.queue[item]
                == self.queue[item]
        &&& forall|item: (u64, u64)|
            self.queue.contains_key(item) && !#[trigger] after.queue.contains_key(item)
                ==> !after.senders.contains(item.0)
        &&& forall|k: int, item: (u64, u64)|
            0 <= k < activated.len() && #[trigger] after.queue.contains_key(item) ==> (
            #[trigger] activated[k]).1 <= item.1
        &&& after.has_empty_slot() ==> after.queue == spec_nothing_queued()
    }
}

impl View for PriorityManager {
    type V = PriorityManagerView;

    closed spec fn view(&self) -> PriorityManagerView {
        PriorityManagerView {
            queue: spec_queue_contents(self.queue),
            senders: self.senders@,
            scheduled_priority_levels: self.scheduled_priority_levels@,
            unscheduled_priority_partitions: self.unscheduled_priority_partitions@,
            rtt_bytes: self.rtt_bytes,
        }
    }
}

/// An IPv4 address as one number, first octet highest.
pub fn address_key(address: [u8; 4]) -> (key: u32)
    ensures
        key == spec_address_key(address@),
{
    (address[0] as u32) * 0x100_0000 + (address[1] as u32) * 0x1_0000 + (address[2] as u32)
        * 0x100 + (address[3] as u32)
}

/// Two numbers with the same four base-256 digits sum are digit by digit the
/// same.
proof fn lemma_octets_unique(a0: int, a1: int, a2: int, a3: int, b0: int, b1: int, b2: int, b3: int)
    requires
        0 <= a0 < 256 && 0 <= a1 < 256 && 0 <= a2 < 256 && 0 <= a3 < 256,
        0 <= b0 < 256 && 0 <= b1 < 256 && 0 <= b2 < 256 && 0 <= b3 < 256,
        a0 * 0x100_0000 + a1 * 0x1_0000 + a2 * 0x100 + a3 == b0 * 0x100_0000 + b1 * 0x1_0000 + b2
            * 0x100 + b3,
    ensures
        a0 == b0 && a1 == b1 && a2 == b2 && a3 == b3,
{
    if a0 < b0 {
        assert(a0 * 0x100_0000 + 0x100_0000 <= b0 * 0x100_0000);
    }
    if a0 > b0 {
        assert(b0 * 0x100_0000 + 0x100_0000 <= a0 * 0x100_0000);
    }
    assert(a0 == b0);
    if a1 < b1 {
        assert(a1 * 0x1_0000 + 0x1_0000 <= b1 * 0x1_0000);
    }
    if a1 > b1 {
        assert(b1 * 0x1_0000 + 0x1_0000 <= a1 * 0x1_0000);
    }
    assert(a1 == b1);
    if a2 < b2 {
        assert(a2 * 0x100 + 0x100 <= b2 * 0x100);
    }
    if a2 > b2 {
        assert(b2 * 0x100 + 0x100 <= a2 * 0x100);
    }
}

/// Different addresses are different numbers.
pub proof fn lemma_address_key_injective(one: Seq<u8>, other: Seq<u8>)
    requires
        one.len() == 4,
        other.len() == 4,
        spec_address_key(one) == spec_address_key(other),
    ensures
        one == other,
{
    lemma_octets_unique(
        one[0] as int,
        one[1] as int,
        one[2] as int,
        one[3] as int,
        other[0] as int,
        other[1] as int,
        other[2] as int,
        other[3] as int,
    );
    assert(one =~= other);
}

/// Where a message length falls among the boundaries: above everything
/// before its band, and within its band if it has one.
pub proof fn lemma_band(partitions: Seq<u64>, message_length: u64)
    ensures
        0 <= spec_band(partitions, message_length) <= partitions.len(),
        forall|i: int|
            0 <= i < spec_band(partitions, message_length) ==> partitions[i] < message_length,
        spec_band(partitions, message_length) < partitions.len() ==> message_length
            <= partitions[spec_band(partitions, message_length)],
    decreases partitions.len(),
{
    if partitions.len() > 0 {
        let front = partitions.drop_last();
        lemma_band(front, message_length);
        let band = spec_band(partitions, message_length);
        assert forall|i: int| 0 <= i < band implies partitions[i] < message_length by {
            if i < front.len() {
                assert(front[i] == partitions[i]);
            }
        }
        if band < front.len() {
            assert(front[band] == partitions[band]);
        }
    }
}

/// A slot is empty exactly when the first empty slot exists.
pub proof fn lemma_has_empty(slots: Seq<PriorityLevelEntry>)
    ensures
        spec_first_empty(slots) < slots.len() <==> slots.contains(PriorityLevelEntry::Empty),
{
    lemma_first_empty(slots);
    if spec_first_empty(slots) < slots.len() {
        assert(slots[spec_first_empty(slots)] == PriorityLevelEntry::Empty);
    }
    if slots.contains(PriorityLevelEntry::Empty) {
        let i = choose|i: int| 0 <= i < slots.len() && slots[i] == PriorityLevelEntry::Empty;
        assert(spec_first_empty(slots) <= i);
    }
}

/// A message that takes an empty slot is the one new holder.
pub proof fn lemma_occupy_slot(slots: Seq<PriorityLevelEntry>, position: int, entry: (u64, u64))
    requires
        0 <= position < slots.len(),
        slots[position] == PriorityLevelEntry::Empty,
    ensures
        spec_entries_distinct(slots) && !spec_holds_slot(slots, entry.0)
            ==> spec_entries_distinct(
            slots.update(position, PriorityLevelEntry::Occupied(entry)),
        ),
        forall|id: u64| #[trigger]
            spec_holds_slot(slots.update(position, PriorityLevelEntry::Occupied(entry)), id) <==> (
            spec_holds_slot(slots, id) || id == entry.0),
{
    let updated = slots.update(position, PriorityLevelEntry::Occupied(entry));
    assert forall|id: u64| #[trigger]
        spec_holds_slot(updated, id) <==> (spec_holds_slot(slots, id) || id == entry.0) by {
        if spec_holds_slot(slots, id) {
            let i = choose|i: int|
                0 <= i < slots.len() && #[trigger] spec_entry_id(slots[i]) == Some(id);
            assert(spec_entry_id(updated[i]) == Some(id));
        }
        if id == entry.0 {
            assert(spec_entry_id(updated[position]) == Some(id));
        }
        if spec_holds_slot(updated, id) && id != entry.0 {
            let i = choose|i: int|
                0 <= i < updated.len() && #[trigger] spec_entry_id(updated[i]) == Some(id);
            assert(spec_entry_id(slots[i]) == Some(id));
        }
    }
    if spec_entries_distinct(slots) && !spec_holds_slot(slots, entry.0) {
        assert forall|i: int, j: int|
            0 <= i < j < updated.len() && spec_entry_id(updated[i]) is Some implies spec_entry_id(
            updated[i],
        ) != spec_entry_id(updated[j]) by {
            if i != position && j != position {
                assert(spec_entry_id(updated[i]) == spec_entry_id(slots[i]));
                assert(spec_entry_id(updated[j]) == spec_entry_id(slots[j]));
            } else if i == position {
                assert(spec_entry_id(slots[j]) != Some(entry.0));
            } else {
                assert(spec_entry_id(slots[i]) != Some(entry.0));
            }
        }
    }
}

/// A message that gives up its slot is the one holder less.
pub proof fn lemma_vacate_slot(slots: Seq<PriorityLevelEntry>, position: int, id: u64)
    requires
        0 <= position < slots.len(),
        spec_entry_id(slots[position]) == Some(id),
        spec_entries_distinct(slots),
    ensures
        spec_entries_distinct(slots.update(position, PriorityLevelEntry::Empty)),
        forall|other: u64| #[trigger]
            spec_holds_slot(slots.update(position, PriorityLevelEntry::Empty), other) <==> (
            spec_holds_slot(slots, other) && other != id),
{
    let updated = slots.update(position, PriorityLevelEntry::Empty);
    assert forall|other: u64| #[trigger]
        spec_holds_slot(updated, other) <==> (spec_holds_slot(slots, other) && other != id) by {
        if spec_holds_slot(slots, other) && other != id {
            let i = choose|i: int|
                0 <= i < slots.len() && #[trigger] spec_entry_id(slots[i]) == Some(other);
            assert(spec_entry_id(updated[i]) == Some(other));
        }
        if spec_holds_slot(updated, other) {
            let i = choose|i: int|
                0 <= i < updated.len() && #[trigger] spec_entry_id(updated[i]) == Some(other);
            assert(spec_entry_id(slots[i]) == Some(other));
            if other == id {
                if i < position {
                    assert(spec_entry_id(slots[i]) != spec_entry_id(slots[position]));
                } else {
                    assert(spec_entry_id(slots[position]) != spec_entry_id(slots[i]));
                }
            }
        }
    }
    assert forall|i: int, j: int|
        0 <= i < j < updated.len() && spec_entry_id(updated[i]) is Some implies spec_entry_id(
        updated[i],
    ) != spec_entry_id(updated[j]) by {
        assert(spec_entry_id(slots[i]) != spec_entry_id(slots[j]));
    }
}

/// Filling keeps the number of slots and every holder, and adds none but the
/// messages it was given; with no slot empty it changes nothing.
pub proof fn lemma_fill(slots: Seq<PriorityLevelEntry>, entries: Seq<(u64, u64)>)
    ensures
        spec_fill(slots, entries).len() == slots.len(),
        forall|i: int|
            0 <= i < slots.len() ==> #[trigger] spec_fill(slots, entries)[i] == slots[i] || (
            slots[i] == PriorityLevelEntry::Empty && exists|k: int|
                0 <= k < entries.len() && spec_fill(slots, entries)[i]
                    == PriorityLevelEntry::Occupied(#[trigger] entries[k])),
        !slots.contains(PriorityLevelEntry::Empty) ==> spec_fill(slots, entries) == slots,
    decreases entries.len(),
{
    if entries.len() > 0 {
        let front = entries.drop_last();
        let inner = spec_fill(slots, front);
        lemma_fill(slots, front);
        lemma_first_empty(inner);
        let after = spec_fill(slots, entries);
        assert forall|i: int| 0 <= i < slots.len() implies #[trigger] after[i] == slots[i] || (
        slots[i] == PriorityLevelEntry::Empty && exists|k: int|
            0 <= k < entries.len() && after[i] == PriorityLevelEntry::Occupied(
                #[trigger] entries[k],
            )) by {
            if after[i] != slots[i] {
                if inner[i] != slots[i] {
                    let k = choose|k: int|
                        0 <= k < front.len() && inner[i] == PriorityLevelEntry::Occupied(
                            #[trigger] front[k],
                        );
                    assert(entries[k] == front[k]);
                    assert(after[i] == PriorityLevelEntry::Occupied(entries[k]));
                } else {
                    assert(after[i] == PriorityLevelEntry::Occupied(entries[entries.len() - 1]));
                }
            }
        }
        if !slots.contains(PriorityLevelEntry::Empty) {
            lemma_has_empty(slots);
        }
    }
}

/// The ids of a sequence of messages with one more at its end.
pub proof fn lemma_ids_push(entries: Seq<(u64, u64)>, entry: (u64, u64))
    ensures
        spec_ids(entries.push(entry)) == spec_ids(entries).insert(entry.0),
{
    let longer = entries.push(entry);
    assert forall|id: u64| spec_ids(longer).contains(id) <==> spec_ids(entries).insert(
        entry.0,
    ).contains(id) by {
        if spec_ids(longer).contains(id) {
            let k = choose|k: int| 0 <= k < longer.len() && (#[trigger] longer[k]).0 == id;
            if k < entries.len() {
                assert(entries[k].0 == id);
            }
        }
        if spec_ids(entries).contains(id) {
            let k = choose|k: int| 0 <= k < entries.len() && (#[trigger] entries[k]).0 == id;
            assert(longer[k].0 == id);
        }
        if id == entry.0 {
            assert(longer[entries.len() as int].0 == id);
        }
    }
    assert(spec_ids(longer) =~= spec_ids(entries).insert(entry.0));
}

/// Shortest remaining first survives an activation: those that got a slot
/// had the fewest bytes remaining of all that were queued.
pub proof fn lemma_activation_keeps_srpt(
    before: PriorityManagerView,
    after: PriorityManagerView,
    activated: Seq<(u64, u64)>,
)
    requires
        before.activation(after, activated),
        before.srpt(),
    ensures
        after.srpt(),
{
    let slots = before.scheduled_priority_levels;
    let filled = spec_fill(slots, activated);
    let sorted = after.scheduled_priority_levels;
    lemma_fill(slots, activated);
    lemma_sort_entries(filled);
    assert forall|i: int, item: (u64, u64)|
        0 <= i < sorted.len() && #[trigger] after.queue.contains_key(item)
            && #[trigger] spec_entry_id(sorted[i]) is Some implies sorted[i]->Occupied_0.1
        <= item.1 by {
        assert(sorted.contains(sorted[i]));
        assert(filled.contains(sorted[i]));
        let j = choose|j: int| 0 <= j < filled.len() && filled[j] == sorted[i];
        assert(before.queue.contains_key(item));
        if filled[j] == slots[j] {
            assert(spec_entry_id(slots[j]) is Some);
        } else {
            let k = choose|k: int|
                0 <= k < activated.len() && filled[j] == PriorityLevelEntry::Occupied(
                    #[trigger] activated[k],
                );
            assert(activated[k].1 <= item.1);
        }
    }
}

/// An activation moves as many waiting messages as it can: no more than
/// there were empty slots, and fewer only if nobody is left in the queue and
/// every message that waited for an answer is among those activated.
pub proof fn lemma_activation_is_greedy(
    before: PriorityManagerView,
    after: PriorityManagerView,
    activated: Seq<(u64, u64)>,
)
    requires
        before.activation(after, activated),
    ensures
        activated.len() <= spec_empty_count(before.scheduled_priority_levels),
        activated.len() < spec_empty_count(before.scheduled_priority_levels) ==> {
            &&& after.queue == spec_nothing_queued()
            &&& forall|item: (u64, u64)| #[trigger]
                before.queue.contains_key(item) && before.senders.contains(item.0) ==> spec_ids(
                    activated,
                ).contains(item.0)
        },
{
    lemma_empty_count(after.scheduled_priority_levels);
    lemma_has_empty(after.scheduled_priority_levels);
    if activated.len() < spec_empty_count(before.scheduled_priority_levels) {
        assert forall|item: (u64, u64)| #[trigger]
            before.queue.contains_key(item) && before.senders.contains(
                item.0,
            ) implies spec_ids(activated).contains(item.0) by {
            assert(!after.queue.contains_key(item));
            assert(!after.senders.contains(item.0));
        }
    }
}

/// A message that registers while a slot is empty does not stay queued.
pub proof fn lemma_lone_waiter_is_activated(
    before: PriorityManagerView,
    after: PriorityManagerView,
    activated: Seq<(u64, u64)>,
    id: u64,
    remaining: u64,
)
    requires
        before.wf(),
        before.has_empty_slot(),
        before.enqueued(id, remaining).activation(after, activated),
    ensures
        after.queue == spec_nothing_queued(),
        after.srpt(),
{
    let waiting = before.enqueued(id, remaining);
    let slots = before.scheduled_priority_levels;
    let item = (id, remaining);
    assert(waiting.queue.contains_key(item));
    assert(waiting.senders.contains(id));
    if after.queue.contains_key(item) {
        if activated.len() == 0 {
            lemma_sort_entries(slots);
            lemma_has_empty(slots);
            lemma_has_empty(after.scheduled_priority_levels);
            assert(after.has_empty_slot());
        } else {
            assert(waiting.queue.contains_key(activated[0]));
            assert(activated[0] == item);
        }
    }
    assert forall|other: (u64, u64)| !after.queue.contains_key(other) by {
        if after.queue.contains_key(other) {
            assert(waiting.queue.contains_key(other));
        }
    }
    assert(after.queue =~= spec_nothing_queued());
}

impl PriorityManager {
    /// A manager with every slot empty, nobody waiting and no peer known.
    pub fn new(config: &Config) -> (manager: PriorityManager)
        requires
            config.wf(),
        ensures
            manager@.wf(),
            manager@.srpt(),
            manager@.queue == spec_nothing_queued(),
            manager@.senders == Set::<u64>::empty(),
            manager@.scheduled_priority_levels == Seq::new(
                SCHEDULED_PRIORITY_LEVELS as nat,
                |i: int| PriorityLevelEntry::Empty,
            ),
            manager@.unscheduled_priority_partitions.dom() == Set::<u32>::empty(),
            manager@.rtt_bytes == config.spec_rtt_bytes(),
    {
        let manager = PriorityManager {
            queue: queue_new(),
            senders: HashSet::new(),
            scheduled_priority_levels: [PriorityLevelEntry::Empty; SCHEDULED_PRIORITY_LEVELS],
            unscheduled_priority_partitions: HashMap::new(),
            rtt_bytes: config.rtt_bytes(),
        };
        proof {
            assert(manager@.scheduled_priority_levels =~= Seq::new(
                SCHEDULED_PRIORITY_LEVELS as nat,
                |i: int| PriorityLevelEntry::Empty,
            ));
            assert(manager@.unscheduled_priority_partitions.dom() =~= Set::<u32>::empty());
            assert forall|id: u64| !#[trigger] spec_holds_slot(
                manager@.scheduled_priority_levels,
                id,
            ) by {
                lemma_position(manager@.scheduled_priority_levels, id);
            }
        }
        manager
    }

    /// The slots, in order.
    pub fn scheduled_priority_levels(&self) -> (slots: [PriorityLevelEntry;
        SCHEDULED_PRIORITY_LEVELS])
        ensures
            slots@ == self@.scheduled_priority_levels,
    {
        self.scheduled_priority_levels
    }

    /// The positions of the empty slots, ascending.
    pub fn find_empty_entry_positions(&self) -> (positions: Vec<usize>)
        ensures
            forall|k: int|
                0 <= k < positions.len() ==> positions[k] < SCHEDULED_PRIORITY_LEVELS
                    && self@.scheduled_priority_levels[positions[k] as int]
                    == PriorityLevelEntry::Empty,
            forall|i: int|
                0 <= i < SCHEDULED_PRIORITY_LEVELS && self@.scheduled_priority_levels[i]
                    == PriorityLevelEntry::Empty ==> positions@.contains(i as usize),
            forall|j: int, k: int| 0 <= j < k < positions.len() ==> positions[j] < positions[k],
            positions.len() > 0 <==> self@.has_empty_slot(),
            positions.len() > 0 ==> positions[0] == spec_first_empty(
                self@.scheduled_priority_levels,
            ),
    {
        let mut positions: Vec<usize> = Vec::new();
        let mut index: usize = 0;
        while index < SCHEDULED_PRIORITY_LEVELS
            invariant
                index <= SCHEDULED_PRIORITY_LEVELS,
                forall|k: int|
                    0 <= k < positions.len() ==> positions[k] < index
                        && self.scheduled_priority_levels[positions[k] as int]
                        == PriorityLevelEntry::Empty,
                forall|i: int|
                    0 <= i < index && self.scheduled_priority_levels[i]
                        == PriorityLevelEntry::Empty ==> positions@.contains(i as usize),
                forall|j: int, k: int|
                    0 <= j < k < positions.len() ==> positions[j] < positions[k],
            decreases SCHEDULED_PRIORITY_LEVELS - index,
        {
            let ghost before = positions@;
            match self.scheduled_priority_levels[index] {
                PriorityLevelEntry::Empty => {
                    positions.push(index);
                    proof {
                        assert forall|i: int|
                            0 <= i < index + 1 && self.scheduled_priority_levels[i]
                                == PriorityLevelEntry::Empty implies positions@.contains(
                            i as usize,
                        ) by {
                            if i < index {
                                let k = choose|k: int|
                                    0 <= k < before.len() && before[k] == i as usize;
                                assert(positions[k] == i as usize);
                            } else {
                                assert(positions[positions.len() - 1] == i as usize);
                            }
                        }
                    }
                },
                PriorityLevelEntry::Occupied(_) => {},
            }
            index = index + 1;
        }
        proof {
            let slots = self@.scheduled_priority_levels;
            lemma_first_empty(slots);
            let first = spec_first_empty(slots);
            if first < slots.len() {
                assert(positions@.contains(first as usize));
                let k = choose|k: int| 0 <= k < positions.len() && positions[k] == first as usize;
                if k > 0 {
                    assert(positions[0] < positions[k]);
                }
            }
        }
        positions
    }

    /// The first slot that message `id` holds, if it holds one.
    #[verifier::loop_isolation(false)]
    pub fn find_message_position(&self, id: u64) -> (position: Option<usize>)
        ensures
            match position {
                Some(position) => position == spec_position(self@.scheduled_priority_levels, id)
                    && position < SCHEDULED_PRIORITY_LEVELS,
                None => !spec_holds_slot(self@.scheduled_priority_levels, id),
            },
            position is Some <==> spec_holds_slot(self@.scheduled_priority_levels, id),
    {
        let ghost slots = self@.scheduled_priority_levels;
        proof {
            lemma_position(slots, id);
        }
        let mut index: usize = 0;
        while index < SCHEDULED_PRIORITY_LEVELS
            invariant
                index <= SCHEDULED_PRIORITY_LEVELS,
                slots == self.scheduled_priority_levels@,
                slots.len() == SCHEDULED_PRIORITY_LEVELS,
                forall|i: int| 0 <= i < index ==> spec_entry_id(slots[i]) != Some(id),
            decreases SCHEDULED_PRIORITY_LEVELS - index,
        {
            match self.scheduled_priority_levels[index] {
                PriorityLevelEntry::Occupied((existing_id, _)) => {
                    if existing_id == id {
                        proof {
                            assert(spec_entry_id(slots[index as int]) == Some(id));
                            let first = spec_position(slots, id);
                            if first < index {
                                assert(spec_entry_id(slots[first]) == Some(id));
                            }
                            if first > index {
                                assert(spec_entry_id(slots[index as int]) != Some(id));
                            }
                        }
                        return Some(index);
                    }
                },
                PriorityLevelEntry::Empty => {},
            }
            assert(spec_entry_id(slots[index as int]) != Some(id));
            index = index + 1;
        }
        proof {
            let first = spec_position(slots, id);
            if first < slots.len() {
                assert(spec_entry_id(slots[first]) == Some(id));
            }
        }
        None
    }

    /// Records that message `id` has `remaining_datagrams` bytes left, puts
    /// the slots in order again and returns the DSCP of the slot the message
    /// then holds: its position times the band width. Does nothing, and
    /// returns `None`, for a message that holds no slot.
    pub fn update_message(&mut self, id: u64, remaining_datagrams: u64) -> (priority: Option<u8>)
        requires
            old(self)@.wf(),
        ensures
            final(self)@.wf(),
            priority is Some <==> spec_holds_slot(old(self)@.scheduled_priority_levels, id),
            priority is None ==> final(self)@ == old(self)@,
            priority is Some ==> {
                &&& final(self)@ == old(self)@.with_slot(
                    spec_position(old(self)@.scheduled_priority_levels, id),
                    PriorityLevelEntry::Occupied((id, remaining_datagrams)),
                ).sorted()
                &&& priority.unwrap() == PRIORITY_LEVEL_WIDTH * spec_position(
                    final(self)@.scheduled_priority_levels,
                    id,
                )
            },
            old(self)@.srpt() && priority is Some && remaining_datagrams <= old(
                self,
            )@.scheduled_priority_levels[spec_position(
                old(self)@.scheduled_priority_levels,
                id,
            )]->Occupied_0.1 ==> final(self)@.srpt(),
    {
        let position = match self.find_message_position(id) {
            Some(position) => position,
            None => {
                return None;
            },
        };
        let ghost before = self@.scheduled_priority_levels;
        let entry = PriorityLevelEntry::Occupied((id, remaining_datagrams));
        self.scheduled_priority_levels[position] = entry;
        let ghost updated = self@.scheduled_priority_levels;
        proof {
            lemma_position(before, id);
            assert(updated =~= before.update(position as int, entry));
            Self::lemma_replace_slot(before, position as int, entry);
            lemma_sort_entries(updated);
        }
        sort_priority_levels(&mut self.scheduled_priority_levels);
        proof {
            let after = self@.scheduled_priority_levels;
            assert(spec_entry_id(updated[position as int]) == Some(id));
            assert(spec_holds_slot(updated, id));
            assert(spec_holds_slot(after, id));
            lemma_position(after, id);
            lemma_first_empty(updated);
            lemma_first_empty(after);
            lemma_first_empty(before);
            if spec_first_empty(after) < after.len() {
                assert(after.contains(after[spec_first_empty(after)]));
                assert(updated.contains(PriorityLevelEntry::Empty));
                let i = choose|i: int| 0 <= i < updated.len() && updated[i] == PriorityLevelEntry::Empty;
                assert(before[i] == PriorityLevelEntry::Empty);
                assert(spec_first_empty(before) <= i);
            }
            assert forall|id: u64| self@.senders.contains(id) implies !#[trigger] spec_holds_slot(
                after,
                id,
            ) by {
                assert(!spec_holds_slot(before, id));
                assert(spec_holds_slot(after, id) == spec_holds_slot(updated, id));
            }
            if old(self)@.srpt() && remaining_datagrams <= before[position as int]->Occupied_0.1 {
                assert forall|i: int, item: (u64, u64)|
                    0 <= i < after.len() && #[trigger] self@.queue.contains_key(item)
                        && #[trigger] spec_entry_id(after[i]) is Some implies after[i]->Occupied_0.1
                    <= item.1 by {
                    assert(after.contains(after[i]));
                    assert(updated.contains(after[i]));
                    let j = choose|j: int| 0 <= j < updated.len() && updated[j] == after[i];
                    if j != position {
                        assert(spec_entry_id(before[j]) is Some);
                    } else {
                        assert(spec_entry_id(before[position as int]) is Some);
                    }
                }
            }
        }
        match self.find_message_position(id) {
            Some(position) => Some((position * PRIORITY_LEVEL_WIDTH) as u8),
            None => None,
        }
    }

    /// Replacing what a message holds by another slot of the same message
    /// changes nothing about who holds a slot.
    proof fn lemma_replace_slot(
        slots: Seq<PriorityLevelEntry>,
        position: int,
        entry: PriorityLevelEntry,
    )
        requires
            0 <= position < slots.len(),
            spec_entry_id(entry) is Some,
            spec_entry_id(slots[position]) == spec_entry_id(entry),
        ensures
            spec_entries_distinct(slots) ==> spec_entries_distinct(slots.update(position, entry)),
            forall|id: u64|
                spec_holds_slot(slots, id) <==> #[trigger] spec_holds_slot(
                    slots.update(position, entry),
                    id,
                ),
    {
        let updated = slots.update(position, entry);
        assert forall|id: u64|
            spec_holds_slot(slots, id) <==> #[trigger] spec_holds_slot(updated, id) by {
            if spec_holds_slot(slots, id) {
                let i = choose|i: int|
                    0 <= i < slots.len() && #[trigger] spec_entry_id(slots[i]) == Some(id);
                assert(spec_entry_id(updated[i]) == Some(id));
            }
            if spec_holds_slot(updated, id) {
                let i = choose|i: int|
                    0 <= i < updated.len() && #[trigger] spec_entry_id(updated[i]) == Some(id);
                assert(spec_entry_id(slots[i]) == Some(id));
            }
        }
        if spec_entries_distinct(slots) {
            assert forall|i: int, j: int|
                0 <= i < j < updated.len() && spec_entry_id(
                    updated[i],
                ) is Some implies spec_entry_id(updated[i]) != spec_entry_id(updated[j]) by {
                assert(spec_entry_id(updated[i]) == spec_entry_id(slots[i]));
                assert(spec_entry_id(updated[j]) == spec_entry_id(slots[j]));
            }
        }
    }

    /// Answers a request for the scheduled priority of message `id`, which
    /// has `remaining_datagrams` bytes left: see [`Self::update_message`]. No
    /// answer is owed to a message that holds no slot.
    pub fn handle_get_scheduled_priority(&mut self, id: u64, remaining_datagrams: u64) -> (priority:
        Option<u8>)
        requires
            old(self)@.wf(),
        ensures
            final(self)@.wf(),
            priority is Some <==> spec_holds_slot(old(self)@.scheduled_priority_levels, id),
            priority is None ==> final(self)@ == old(self)@,
            priority is Some ==> {
                &&& final(self)@ == old(self)@.with_slot(
                    spec_position(old(self)@.scheduled_priority_levels, id),
                    PriorityLevelEntry::Occupied((id, remaining_datagrams)),
                ).sorted()
                &&& priority.unwrap() == PRIORITY_LEVEL_WIDTH * spec_position(
                    final(self)@.scheduled_priority_levels,
                    id,
                )
            },
            old(self)@.srpt() && priority is Some && remaining_datagrams <= old(
                self,
            )@.scheduled_priority_levels[spec_position(
                old(self)@.scheduled_priority_levels,
                id,
            )]->Occupied_0.1 ==> final(self)@.srpt(),
    {
        self.update_message(id, remaining_datagrams)
    }

    /// Fills empty slots from the queue: while a slot is empty and something
    /// is queued, takes the queued message with the fewest bytes remaining;
    /// if it still waits for an answer it gets the first empty slot, else it
    /// is dropped. Then puts the slots in order. Returns the messages that
    /// got a slot, which are now owed their answer: see
    /// [`PriorityManagerView::activation`].
    pub fn try_activate_messages(&mut self) -> (activated: Vec<(u64, u64)>)
        requires
            old(self)@.wf_pending(),
        ensures
            final(self)@.wf(),
            old(self)@.activation(final(self)@, activated@),
            activated@.len() <= spec_empty_count(old(self)@.scheduled_priority_levels),
    {
        let mut activated: Vec<(u64, u64)> = Vec::new();
        loop
            invariant
                self@.wf_pending(),
                self@.scheduled_priority_levels == spec_fill(
                    old(self)@.scheduled_priority_levels,
                    activated@,
                ),
                forall|id: u64| #[trigger]
                    spec_holds_slot(self@.scheduled_priority_levels, id) <==> (spec_holds_slot(
                        old(self)@.scheduled_priority_levels,
                        id,
                    ) || spec_ids(activated@).contains(id)),
                spec_empty_count(self@.scheduled_priority_levels) + activated.len()
                    == spec_empty_count(old(self)@.scheduled_priority_levels),
                self@.unscheduled_priority_partitions == old(self)@.unscheduled_priority_partitions,
                self@.rtt_bytes == old(self)@.rtt_bytes,
                self@.senders == old(self)@.senders.difference(spec_ids(activated@)),
                forall|k: int|
                    0 <= k < activated.len() ==> old(self)@.queue.contains_key(
                        #[trigger] activated[k],
                    ) && old(self)@.senders.contains(activated[k].0)
                        && !self@.queue.contains_key(activated[k]),
                forall|j: int, k: int|
                    0 <= j < k < activated.len() ==> (#[trigger] activated[j]).0 != (
                    #[trigger] activated[k]).0,
                forall|item: (u64, u64)| #[trigger]
                    self@.queue.contains_key(item) ==> old(self)@.queue.contains_key(item)
                        && self@.queue[item] == old(self)@.queue[item],
                forall|item: (u64, u64)|
                    old(self)@.queue.contains_key(item) && !#[trigger] self@.queue.contains_key(
                        item,
                    ) ==> !self@.senders.contains(item.0),
                forall|k: int, item: (u64, u64)|
                    0 <= k < activated.len() && #[trigger] self@.queue.contains_key(item) ==> (
                    #[trigger] activated[k]).1 <= item.1,
            ensures
                self@.has_empty_slot() ==> self@.queue == spec_nothing_queued(),
            decreases self@.queue.dom().len(),
        {
            let positions = self.find_empty_entry_positions();
            if positions.len() == 0 {
                break ;
            }
            let position = positions[0];
            let ghost before = self@;
            let ghost earlier = activated@;
            let popped = queue_pop(&mut self.queue);
            match popped {
                None => {
                    break ;
                },
                Some((entry, _)) => {
                    let waiting = self.senders.remove(&entry.0);
                    if waiting {
                        self.scheduled_priority_levels[position] = PriorityLevelEntry::Occupied(
                            entry,
                        );
                        activated.push(entry);
                        proof {
                            let slots = before.scheduled_priority_levels;
                            assert(self@.scheduled_priority_levels =~= slots.update(
                                position as int,
                                PriorityLevelEntry::Occupied(entry),
                            ));
                            assert(!spec_holds_slot(slots, entry.0));
                            lemma_occupy_slot(slots, position as int, entry);
                            lemma_empty_count_update(
                                slots,
                                position as int,
                                PriorityLevelEntry::Occupied(entry),
                            );
                            assert(activated@.drop_last() =~= earlier);
                            assert forall|j: int| 0 <= j < earlier.len() implies (
                            #[trigger] earlier[j]).0 != entry.0 by {
                                assert(spec_ids(earlier).contains(earlier[j].0));
                            }
                            lemma_ids_push(earlier, entry);
                            assert(activated@ =~= earlier.push(entry));
                            assert(self@.senders =~= old(self)@.senders.difference(
                                spec_ids(activated@),
                            ));
                        }
                    }
                    assert(self@.queue.dom().len() < before.queue.dom().len());
                },
            }
        }
        let ghost filled = self@.scheduled_priority_levels;
        sort_priority_levels(&mut self.scheduled_priority_levels);
        proof {
            let sorted = self@.scheduled_priority_levels;
            lemma_sort_entries(filled);
            lemma_empty_count_sort(filled);
            lemma_empty_count(sorted);
            lemma_has_empty(filled);
            lemma_has_empty(sorted);
            assert forall|id: u64| self@.senders.contains(id) implies !#[trigger] spec_holds_slot(
                sorted,
                id,
            ) by {
                assert(!spec_holds_slot(filled, id));
            }
            assert forall|k: int| 0 <= k < activated.len() implies spec_holds_slot(
                sorted,
                (#[trigger] activated[k]).0,
            ) by {
                assert(spec_ids(activated@).contains(activated[k].0));
                assert(spec_holds_slot(filled, activated[k].0));
            }
        }
        activated
    }

    /// Registers scheduled message `id`, which has `remaining_datagrams`
    /// bytes left, and returns the messages that are owed their answer now.
    ///
    /// The message joins the queue and takes part in an activation. A message
    /// that already holds a slot is not queued again: its slot takes the new
    /// count, the slots are put in order, and it alone is answered.
    pub fn handle_register_scheduled_message(&mut self, id: u64, remaining_datagrams: u64) -> (activated:
        Vec<(u64, u64)>)
        requires
            old(self)@.wf(),
        ensures
            final(self)@.wf(),
            spec_holds_slot(old(self)@.scheduled_priority_levels, id) ==> {
                &&& final(self)@ == old(self)@.with_slot(
                    spec_position(old(self)@.scheduled_priority_levels, id),
                    PriorityLevelEntry::Occupied((id, remaining_datagrams)),
                ).sorted()
                &&& activated@ == seq![(id, remaining_datagrams)]
            },
            !spec_holds_slot(old(self)@.scheduled_priority_levels, id) ==> old(self)@.enqueued(
                id,
                remaining_datagrams,
            ).activation(final(self)@, activated@),
            old(self)@.srpt() && !spec_holds_slot(old(self)@.scheduled_priority_levels, id) && (old(
                self,
            )@.has_empty_slot() || old(self)@.holders_within(remaining_datagrams)) ==> final(self)@.srpt(),
    {
        let ghost before = self@;
        match self.update_message(id, remaining_datagrams) {
            Some(_) => {
                let mut activated: Vec<(u64, u64)> = Vec::new();
                activated.push((id, remaining_datagrams));
                assert(activated@ =~= seq![(id, remaining_datagrams)]);
                activated
            },
            None => {
                queue_push(&mut self.queue, (id, remaining_datagrams), remaining_datagrams);
                self.senders.insert(id);
                proof {
                    assert(self@ == before.enqueued(id, remaining_datagrams));
                    if before.srpt() && before.holders_within(remaining_datagrams) {
                        assert(self@.srpt());
                    }
                }
                let activated = self.try_activate_messages();
                proof {
                    if before.srpt() && before.holders_within(remaining_datagrams) {
                        lemma_activation_keeps_srpt(
                            before.enqueued(id, remaining_datagrams),
                            self@,
                            activated@,
                        );
                    } else if before.has_empty_slot() {
                        lemma_lone_waiter_is_activated(
                            before,
                            self@,
                            activated@,
                            id,
                            remaining_datagrams,
                        );
                    }
                }
                activated
            },
        }
    }

    /// Takes message `id` out of its slot and lets a waiting message move
    /// up; returns the message that is owed its answer now, if there is one.
    /// A message that holds no slot is left as it is.
    ///
    /// The message holds no slot afterwards. At most one waiting message
    /// takes its place, the one with the fewest bytes remaining; with nobody
    /// waiting one more slot is empty. Every other message that held a slot
    /// still holds one.
    pub fn handle_unregister_scheduled_message(&mut self, id: u64) -> (activated: Vec<(u64, u64)>)
        requires
            old(self)@.wf(),
        ensures
            final(self)@.wf(),
            spec_holds_slot(old(self)@.scheduled_priority_levels, id) ==> old(self)@.with_slot(
                spec_position(old(self)@.scheduled_priority_levels, id),
                PriorityLevelEntry::Empty,
            ).activation(final(self)@, activated@),
            spec_holds_slot(old(self)@.scheduled_priority_levels, id) ==> {
                &&& !spec_holds_slot(final(self)@.scheduled_priority_levels, id)
                &&& activated@.len() <= 1
                &&& spec_empty_count(final(self)@.scheduled_priority_levels) == spec_empty_count(
                    old(self)@.scheduled_priority_levels,
                ) + 1 - activated@.len()
                &&& forall|other: u64|
                    other != id ==> (#[trigger] spec_holds_slot(
                        final(self)@.scheduled_priority_levels,
                        other,
                    ) <==> (spec_holds_slot(old(self)@.scheduled_priority_levels, other)
                        || spec_ids(activated@).contains(other)))
            },
            !spec_holds_slot(old(self)@.scheduled_priority_levels, id) ==> final(self)@ == old(
                self,
            )@ && activated@.len() == 0,
            old(self)@.srpt() ==> final(self)@.srpt(),
    {
        let ghost before = self@;
        match self.find_message_position(id) {
            Some(position) => {
                proof {
                    lemma_position(before.scheduled_priority_levels, id);
                    lemma_vacate_slot(before.scheduled_priority_levels, position as int, id);
                }
                self.scheduled_priority_levels[position] = PriorityLevelEntry::Empty;
                proof {
                    assert(self@.scheduled_priority_levels
                        =~= before.scheduled_priority_levels.update(
                        position as int,
                        PriorityLevelEntry::Empty,
                    ));
                    assert(self@ == before.with_slot(position as int, PriorityLevelEntry::Empty));
                    if before.srpt() {
                        assert(self@.srpt());
                    }
                }
                let ghost vacated = self@;
                let activated = self.try_activate_messages();
                proof {
                    if before.srpt() {
                        lemma_activation_keeps_srpt(vacated, self@, activated@);
                    }
                    let slots = before.scheduled_priority_levels;
                    lemma_empty_count_update(slots, position as int, PriorityLevelEntry::Empty);
                    lemma_empty_count(slots);
                    lemma_empty_count(self@.scheduled_priority_levels);
                    lemma_has_empty(slots);
                    if activated.len() > 0 {
                        assert(vacated.queue.contains_key(activated[0]));
                        assert(before.queue != spec_nothing_queued());
                    }
                    if spec_ids(activated@).contains(id) {
                        let k = choose|k: int|
                            0 <= k < activated.len() && (#[trigger] activated[k]).0 == id;
                        assert(vacated.senders.contains(activated[k].0));
                    }
                }
                activated
            },
            None => Vec::new(),
        }
    }

    /// The DSCP for an unscheduled message of `message_length` bytes to the
    /// peer at `address`: see [`spec_unscheduled_priority`].
    #[verifier::loop_isolation(false)]
    pub fn handle_get_unscheduled_priority(&self, address: [u8; 4], message_length: u64) -> (priority:
        u8)
        ensures
            priority == spec_unscheduled_priority(
                if self@.unscheduled_priority_partitions.contains_key(
                    spec_address_key(address@),
                ) {
                    Some(self@.unscheduled_priority_partitions[spec_address_key(address@)]@)
                } else {
                    None
                },
                self@.rtt_bytes,
                message_length,
            ),
    {
        let key = address_key(address);
        match self.unscheduled_priority_partitions.get(&key) {
            Some(priority_level_partitions) => {
                let ghost partitions = priority_level_partitions@;
                let mut i: usize = 0;
                while i < UNSCHEDULED_PRIORITY_PARTITIONS
                    invariant
                        i <= UNSCHEDULED_PRIORITY_PARTITIONS,
                        partitions == priority_level_partitions@,
                        forall|k: int| 0 <= k < i ==> partitions[k] < message_length,
                    decreases UNSCHEDULED_PRIORITY_PARTITIONS - i,
                {
                    if message_length <= priority_level_partitions[i] {
                        proof {
                            lemma_band(partitions, message_length);
                            let band = spec_band(partitions, message_length);
                            assert(message_length <= partitions[i as int]);
                            if band < i {
                                assert(partitions[band] < message_length);
                            }
                            assert(band == i);
                        }
                        return (56 - i * 8) as u8;
                    }
                    assert(partitions[i as int] < message_length);
                    i = i + 1;
                }
                proof {
                    lemma_band(partitions, message_length);
                    let band = spec_band(partitions, message_length);
                    if band < partitions.len() {
                        assert(partitions[band] < message_length);
                    }
                }
                (64 - UNSCHEDULED_PRIORITY_PARTITIONS * 8) as u8
            },
            None => {
                let priority_level_width = self.rtt_bytes / (UNSCHEDULED_PRIORITY_LEVELS as u64);
                let ghost partitions = spec_partitions(Seq::empty(), self.rtt_bytes);
                let mut i: usize = 1;
                while i < UNSCHEDULED_PRIORITY_LEVELS
                    invariant
                        1 <= i <= UNSCHEDULED_PRIORITY_LEVELS,
                        priority_level_width == self.rtt_bytes / 6,
                        partitions == spec_partitions(Seq::empty(), self.rtt_bytes),
                        forall|k: int| 0 <= k < i - 1 ==> partitions[k] < message_length,
                    decreases UNSCHEDULED_PRIORITY_LEVELS - i,
                {
                    assert(i * priority_level_width <= 5 * priority_level_width)
                        by (nonlinear_arith)
                        requires
                            i <= 5,
                            0 <= priority_level_width,
                    ;
                    let partition = (i as u64) * priority_level_width;
                    assert(partition == partitions[i - 1]);
                    if message_length <= partition {
                        proof {
                            lemma_band(partitions, message_length);
                            let band = spec_band(partitions, message_length);
                            assert(message_length <= partitions[i - 1]);
                            if band < i - 1 {
                                assert(partitions[band] < message_length);
                            }
                            assert(band == i - 1);
                        }
                        return (64 - i * 8) as u8;
                    }
                    assert(partitions[i - 1] < message_length);
                    i = i + 1;
                }
                proof {
                    lemma_band(partitions, message_length);
                    let band = spec_band(partitions, message_length);
                    if band < partitions.len() {
                        assert(partitions[band] < message_length);
                    }
                }
                (64 - UNSCHEDULED_PRIORITY_LEVELS * 8) as u8
            },
        }
    }

    /// Stores the partition vector that the peer at `address` advertised, in
    /// place of any it advertised before.
    pub fn handle_put_priority_level_partions(
        &mut self,
        address: [u8; 4],
        priority_level_partitions: [u64; UNSCHEDULED_PRIORITY_PARTITIONS],
    )
        ensures
            final(self)@ == (PriorityManagerView {
                unscheduled_priority_partitions: old(self)@.unscheduled_priority_partitions.insert(
                    spec_address_key(address@),
                    priority_level_partitions,
                ),
                ..old(self)@
            }),
    {
        let key = address_key(address);
        self.unscheduled_priority_partitions.insert(key, priority_level_partitions);
    }
}

} // verus!
