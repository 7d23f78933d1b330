//! The scheduled slots and their order: occupied slots by ascending remaining
//! bytes, then the empty ones.
use crate::config::SCHEDULED_PRIORITY_LEVELS;
use vstd::prelude::*;

verus! {

/// One scheduled slot.
#[derive(Clone, Copy, Debug, PartialEq, Eq)]
pub enum PriorityLevelEntry {
    /// Held by the message `(id, remaining bytes)`.
    Occupied((u64, u64)),
    Empty,
}

/// What a slot is ordered by: its remaining bytes, or more than any count of
/// bytes when it is empty.
pub open spec fn spec_entry_key(entry: PriorityLevelEntry) -> int {
    match entry {
        PriorityLevelEntry::Occupied((_, remaining)) => remaining as int,
        PriorityLevelEntry::Empty => u64::MAX + 1,
    }
}

/// The message that holds a slot, if any.
pub open spec fn spec_entry_id(entry: PriorityLevelEntry) -> Option<u64> {
    match entry {
        PriorityLevelEntry::Occupied((id, _)) => Some(id),
        PriorityLevelEntry::Empty => None,
    }
}

/// Whether the slots are in order.
pub open spec fn spec_entries_sorted(entries: Seq<PriorityLevelEntry>) -> bool {
    forall|i: int, j: int|
        0 <= i <= j < entries.len() ==> spec_entry_key(entries[i]) <= spec_entry_key(entries[j])
}

/// Whether no message holds two slots.
pub open spec fn spec_entries_distinct(entries: Seq<PriorityLevelEntry>) -> bool {
    forall|i: int, j: int|
        0 <= i < j < entries.len() && spec_entry_id(entries[i]) is Some ==> spec_entry_id(
            entries[i],
        ) != spec_entry_id(entries[j])
}

/// Whether message `id` holds a slot.
pub open spec fn spec_holds_slot(entries: Seq<PriorityLevelEntry>, id: u64) -> bool {
    exists|i: int| 0 <= i < entries.len() && #[trigger] spec_entry_id(entries[i]) == Some(id)
}

/// The first slot that message `id` holds, or the number of slots if it holds
/// none.
pub open spec fn spec_position(entries: Seq<PriorityLevelEntry>, id: u64) -> int
    decreases entries.len(),
{
    if entries.len() == 0 {
        0
    } else {
        let inner = spec_position(entries.drop_last(), id);
        if inner < entries.len() - 1 {
            inner
        } else if spec_entry_id(entries.last()) == Some(id) {
            entries.len() - 1
        } else {
            entries.len() as int
        }
    }
}

/// The first empty slot, or the number of slots if none is empty.
pub open spec fn spec_first_empty(entries: Seq<PriorityLevelEntry>) -> int
    decreases entries.len(),
{
    if entries.len() == 0 {
        0
    } else {
        let inner = spec_first_empty(entries.drop_last());
        if inner < entries.len() - 1 {
            inner
        } else if entries.last() == PriorityLevelEntry::Empty {
            entries.len() - 1
        } else {
            entries.len() as int
        }
    }
}

/// `sorted` with `entry` put in after every slot that does not come after it.
pub open spec fn spec_insert_entry(
    sorted: Seq<PriorityLevelEntry>,
    entry: PriorityLevelEntry,
) -> Seq<PriorityLevelEntry>
    decreases sorted.len(),
{
    if sorted.len() == 0 {
        seq![entry]
    } else if spec_entry_key(sorted.last()) <= spec_entry_key(entry) {
        sorted.push(entry)
    } else {
        spec_insert_entry(sorted.drop_last(), entry).push(sorted.last())
    }
}

/// The slots in order, slots of equal remaining bytes in the order they had.
pub open spec fn spec_sort_entries(entries: Seq<PriorityLevelEntry>) -> Seq<PriorityLevelEntry>
    decreases entries.len(),
{
    if entries.len() == 0 {
        Seq::empty()
    } else {
        spec_insert_entry(spec_sort_entries(entries.drop_last()), entries.last())
    }
}

/// Where the first empty slot is: nothing before it is empty, and it is.
pub proof fn lemma_first_empty(entries: Seq<PriorityLevelEntry>)
    ensures
        0 <= spec_first_empty(entries) <= entries.len(),
        forall|i: int|
            0 <= i < spec_first_empty(entries) ==> entries[i] != PriorityLevelEntry::Empty,
        spec_first_empty(entries) < entries.len() ==> entries[spec_first_empty(entries)]
            == PriorityLevelEntry::Empty,
    decreases entries.len(),
{
    if entries.len() > 0 {
        let front = entries.drop_last();
        lemma_first_empty(front);
        assert forall|i: int| 0 <= i < spec_first_empty(entries) implies entries[i]
            != PriorityLevelEntry::Empty by {
            if i < front.len() {
                assert(front[i] == entries[i]);
            }
        }
        if spec_first_empty(entries) < front.len() {
            assert(front[spec_first_empty(entries)] == entries[spec_first_empty(entries)]);
        }
    }
}

/// Where the first slot of a message is: nothing before it is held by the
/// message, and it is.
pub proof fn lemma_position(entries: Seq<PriorityLevelEntry>, id: u64)
    ensures
        0 <= spec_position(entries, id) <= entries.len(),
        forall|i: int|
            0 <= i < spec_position(entries, id) ==> spec_entry_id(entries[i]) != Some(id),
        spec_position(entries, id) < entries.len() ==> spec_entry_id(
            entries[spec_position(entries, id)],
        ) == Some(id),
        spec_holds_slot(entries, id) <==> spec_position(entries, id) < entries.len(),
    decreases entries.len(),
{
    if entries.len() > 0 {
        let front = entries.drop_last();
        lemma_position(front, id);
        let at = spec_position(entries, id);
        assert forall|i: int| 0 <= i < at implies spec_entry_id(entries[i]) != Some(id) by {
            if i < front.len() {
                assert(front[i] == entries[i]);
            }
        }
        if at < front.len() {
            assert(front[at] == entries[at]);
        }
        if spec_holds_slot(entries, id) {
            let i = choose|i: int|
                0 <= i < entries.len() && #[trigger] spec_entry_id(entries[i]) == Some(id);
            assert(at <= i);
        }
    }
}

/// An insertion at the place a scan found is the ordered insertion.
pub proof fn lemma_insert_entry_at(
    sorted: Seq<PriorityLevelEntry>,
    entry: PriorityLevelEntry,
    at: int,
)
    requires
        0 <= at <= sorted.len(),
        forall|i: int| 0 <= i < at ==> spec_entry_key(sorted[i]) <= spec_entry_key(entry),
        forall|i: int|
            at <= i < sorted.len() ==> spec_entry_key(entry) < spec_entry_key(sorted[i]),
    ensures
        spec_insert_entry(sorted, entry) == sorted.insert(at, entry),
    decreases sorted.len(),
{
    if sorted.len() == 0 {
        assert(seq![entry] =~= sorted.insert(at, entry));
    } else if spec_entry_key(sorted.last()) <= spec_entry_key(entry) {
        assert(sorted.push(entry) =~= sorted.insert(at, entry));
    } else {
        lemma_insert_entry_at(sorted.drop_last(), entry, at);
        assert(sorted.drop_last().insert(at, entry).push(sorted.last()) =~= sorted.insert(
            at,
            entry,
        ));
    }
}

/// Ordered insertion adds exactly the new slot, keeps the order, and keeps
/// messages from holding two slots.
pub proof fn lemma_insert_entry(sorted: Seq<PriorityLevelEntry>, entry: PriorityLevelEntry)
    ensures
        spec_insert_entry(sorted, entry).len() == sorted.len() + 1,
        forall|other: PriorityLevelEntry|
            #[trigger] spec_insert_entry(sorted, entry).contains(other) <==> (sorted.contains(
                other,
            ) || other == entry),
        spec_entries_sorted(sorted) ==> spec_entries_sorted(spec_insert_entry(sorted, entry)),
        spec_entries_distinct(sorted) && (spec_entry_id(entry) is Some ==> !spec_holds_slot(
            sorted,
            spec_entry_id(entry).unwrap(),
        )) ==> spec_entries_distinct(spec_insert_entry(sorted, entry)),
    decreases sorted.len(),
{
    let after = spec_insert_entry(sorted, entry);
    if sorted.len() == 0 {
        assert(after[0] == entry);
        assert forall|other: PriorityLevelEntry| #[trigger]
            after.contains(other) <==> (sorted.contains(other) || other == entry) by {}
    } else if spec_entry_key(sorted.last()) <= spec_entry_key(entry) {
        assert forall|other: PriorityLevelEntry| #[trigger]
            after.contains(other) <==> (sorted.contains(other) || other == entry) by {
            if sorted.contains(other) {
                let i = choose|i: int| 0 <= i < sorted.len() && sorted[i] == other;
                assert(after[i] == other);
            }
            if other == entry {
                assert(after[sorted.len() as int] == other);
            }
        }
        if spec_entries_distinct(sorted) && (spec_entry_id(entry) is Some ==> !spec_holds_slot(
            sorted,
            spec_entry_id(entry).unwrap(),
        )) {
            assert forall|i: int, j: int|
                0 <= i < j < after.len() && spec_entry_id(
                    after[i],
                ) is Some implies spec_entry_id(after[i]) != spec_entry_id(after[j]) by {
                if j == sorted.len() && spec_entry_id(entry) is Some {
                    assert(spec_entry_id(sorted[i]) != Some(spec_entry_id(entry).unwrap()));
                }
            }
        }
    } else {
        let front = sorted.drop_last();
        let last = sorted.last();
        let inner = spec_insert_entry(front, entry);
        lemma_insert_entry(front, entry);
        assert(sorted =~= front.push(last));
        assert forall|other: PriorityLevelEntry| #[trigger]
            after.contains(other) <==> (sorted.contains(other) || other == entry) by {
            if after.contains(other) {
                let i = choose|i: int| 0 <= i < after.len() && after[i] == other;
                if i < inner.len() {
                    assert(inner[i] == other);
                    assert(inner.contains(other));
                    if front.contains(other) {
                        let k = choose|k: int| 0 <= k < front.len() && front[k] == other;
                        assert(sorted[k] == other);
                    }
                } else {
                    assert(sorted[sorted.len() - 1] == other);
                }
            }
            if sorted.contains(other) {
                let i = choose|i: int| 0 <= i < sorted.len() && sorted[i] == other;
                if i < front.len() {
                    assert(front[i] == other);
                    assert(front.contains(other));
                    assert(inner.contains(other));
                    let k = choose|k: int| 0 <= k < inner.len() && inner[k] == other;
                    assert(after[k] == other);
                } else {
                    assert(after[after.len() - 1] == other);
                }
            }
            if other == entry {
                assert(inner.contains(other));
                let k = choose|k: int| 0 <= k < inner.len() && inner[k] == other;
                assert(after[k] == other);
            }
        }
        if spec_entries_sorted(sorted) {
            assert(spec_entries_sorted(front));
            assert forall|i: int, j: int| 0 <= i <= j < after.len() implies spec_entry_key(
                after[i],
            ) <= spec_entry_key(after[j]) by {
                if j == after.len() - 1 && i < j {
                    assert(inner.contains(inner[i]));
                    if inner[i] != entry {
                        assert(front.contains(inner[i]));
                        let k = choose|k: int| 0 <= k < front.len() && front[k] == inner[i];
                        assert(spec_entry_key(sorted[k]) <= spec_entry_key(
                            sorted[sorted.len() - 1],
                        ));
                    }
                }
            }
        }
        if spec_entries_distinct(sorted) && (spec_entry_id(entry) is Some ==> !spec_holds_slot(
            sorted,
            spec_entry_id(entry).unwrap(),
        )) {
            assert(spec_entries_distinct(front));
            if spec_entry_id(entry) is Some && spec_holds_slot(
                front,
                spec_entry_id(entry).unwrap(),
            ) {
                let i = choose|i: int|
                    0 <= i < front.len() && #[trigger] spec_entry_id(front[i]) == Some(
                        spec_entry_id(entry).unwrap(),
                    );
                assert(spec_entry_id(sorted[i]) == Some(spec_entry_id(entry).unwrap()));
            }
            assert forall|i: int, j: int|
                0 <= i < j < after.len() && spec_entry_id(
                    after[i],
                ) is Some implies spec_entry_id(after[i]) != spec_entry_id(after[j]) by {
                if j == after.len() - 1 {
                    assert(inner.contains(inner[i]));
                    if inner[i] != entry {
                        assert(front.contains(inner[i]));
                        let k = choose|k: int| 0 <= k < front.len() && front[k] == inner[i];
                        assert(spec_entry_id(sorted[k]) != spec_entry_id(
                            sorted[sorted.len() - 1],
                        ));
                    } else {
                        assert(spec_entry_id(sorted[sorted.len() - 1]) != Some(
                            spec_entry_id(entry).unwrap(),
                        ));
                    }
                }
            }
        }
    }
}

/// A slot is among the slots exactly when a message holds it or it is empty
/// and one of the slots is.
pub proof fn lemma_holds_contains(entries: Seq<PriorityLevelEntry>, id: u64)
    ensures
        spec_holds_slot(entries, id) <==> exists|remaining: u64|
            #[trigger] entries.contains(PriorityLevelEntry::Occupied((id, remaining))),
{
    if spec_holds_slot(entries, id) {
        let i = choose|i: int| 0 <= i < entries.len() && #[trigger] spec_entry_id(entries[i]) == Some(id);
        let remaining = entries[i]->Occupied_0.1;
        assert(entries[i] == PriorityLevelEntry::Occupied((id, remaining)));
        assert(entries.contains(PriorityLevelEntry::Occupied((id, remaining))));
    }
    if exists|remaining: u64|
        #[trigger] entries.contains(PriorityLevelEntry::Occupied((id, remaining))) {
        let remaining = choose|remaining: u64|
            #[trigger] entries.contains(PriorityLevelEntry::Occupied((id, remaining)));
        let entry = PriorityLevelEntry::Occupied((id, remaining));
        let i = choose|i: int| 0 <= i < entries.len() && entries[i] == entry;
        assert(spec_entry_id(entries[i]) == Some(id));
    }
}

/// Sorting rearranges the slots and nothing else: the same slots, in order,
/// and still no message with two of them.
pub proof fn lemma_sort_entries(entries: Seq<PriorityLevelEntry>)
    ensures
        spec_sort_entries(entries).len() == entries.len(),
        spec_entries_sorted(spec_sort_entries(entries)),
        forall|other: PriorityLevelEntry|
            #[trigger] spec_sort_entries(entries).contains(other) <==> entries.contains(other),
        forall|id: u64|
            #[trigger] spec_holds_slot(spec_sort_entries(entries), id) <==> spec_holds_slot(
                entries,
                id,
            ),
        spec_entries_distinct(entries) ==> spec_entries_distinct(spec_sort_entries(entries)),
    decreases entries.len(),
{
    let after = spec_sort_entries(entries);
    if entries.len() == 0 {
        assert forall|id: u64| #[trigger]
            spec_holds_slot(after, id) <==> spec_holds_slot(entries, id) by {}
    } else {
        let front = entries.drop_last();
        let last = entries.last();
        let inner = spec_sort_entries(front);
        lemma_sort_entries(front);
        lemma_insert_entry(inner, last);
        assert(entries =~= front.push(last));
        assert forall|other: PriorityLevelEntry| #[trigger]
            after.contains(other) <==> entries.contains(other) by {
            if front.contains(other) {
                let k = choose|k: int| 0 <= k < front.len() && front[k] == other;
                assert(entries[k] == other);
            }
            if other == last {
                assert(entries[entries.len() - 1] == other);
            }
            if entries.contains(other) {
                let i = choose|i: int| 0 <= i < entries.len() && entries[i] == other;
                if i < front.len() {
                    assert(front[i] == other);
                }
            }
        }
        assert forall|id: u64| #[trigger]
            spec_holds_slot(after, id) <==> spec_holds_slot(entries, id) by {
            lemma_holds_contains(after, id);
            lemma_holds_contains(entries, id);
            if spec_holds_slot(after, id) {
                let remaining = choose|remaining: u64| #[trigger]
                    after.contains(PriorityLevelEntry::Occupied((id, remaining)));
                assert(entries.contains(PriorityLevelEntry::Occupied((id, remaining))));
            }
            if spec_holds_slot(entries, id) {
                let remaining = choose|remaining: u64| #[trigger]
                    entries.contains(PriorityLevelEntry::Occupied((id, remaining)));
                assert(after.contains(PriorityLevelEntry::Occupied((id, remaining))));
            }
        }
        if spec_entries_distinct(entries) {
            assert(spec_entries_distinct(front));
            if spec_entry_id(last) is Some {
                let id = spec_entry_id(last).unwrap();
                if spec_holds_slot(front, id) {
                    let i = choose|i: int|
                        0 <= i < front.len() && #[trigger] spec_entry_id(front[i]) == Some(id);
                    assert(spec_entry_id(entries[i]) == spec_entry_id(
                        entries[entries.len() - 1],
                    ));
                }
                assert(!spec_holds_slot(inner, id));
            }
        }
    }
}

/// The number of empty slots.
pub open spec fn spec_empty_count(entries: Seq<PriorityLevelEntry>) -> int
    decreases entries.len(),
{
    if entries.len() == 0 {
        0
    } else if entries.last() == PriorityLevelEntry::Empty {
        spec_empty_count(entries.drop_last()) + 1
    } else {
        spec_empty_count(entries.drop_last())
    }
}

/// There are no more empty slots than slots, and there is one exactly when
/// one of the slots is empty.
pub proof fn lemma_empty_count(entries: Seq<PriorityLevelEntry>)
    ensures
        0 <= spec_empty_count(entries) <= entries.len(),
        spec_empty_count(entries) > 0 <==> entries.contains(PriorityLevelEntry::Empty),
    decreases entries.len(),
{
    if entries.len() > 0 {
        let front = entries.drop_last();
        lemma_empty_count(front);
        if front.contains(PriorityLevelEntry::Empty) {
            let i = choose|i: int| 0 <= i < front.len() && front[i] == PriorityLevelEntry::Empty;
            assert(entries[i] == PriorityLevelEntry::Empty);
        }
        if entries.last() == PriorityLevelEntry::Empty {
            assert(entries[entries.len() - 1] == PriorityLevelEntry::Empty);
        }
        if entries.contains(PriorityLevelEntry::Empty) {
            let i = choose|i: int| 0 <= i < entries.len() && entries[i] == PriorityLevelEntry::Empty;
            if i < front.len() {
                assert(front[i] == PriorityLevelEntry::Empty);
            }
        }
    }
}

/// A slot that changes hands changes the number of empty slots by what it
/// was and what it becomes.
pub proof fn lemma_empty_count_update(
    entries: Seq<PriorityLevelEntry>,
    position: int,
    entry: PriorityLevelEntry,
)
    requires
        0 <= position < entries.len(),
    ensures
        spec_empty_count(entries.update(position, entry)) == spec_empty_count(entries) - (if entries[position]
            == PriorityLevelEntry::Empty {
            1int
        } else {
            0int
        }) + (if entry == PriorityLevelEntry::Empty {
            1int
        } else {
            0int
        }),
    decreases entries.len(),
{
    let updated = entries.update(position, entry);
    if position == entries.len() - 1 {
        assert(updated.drop_last() =~= entries.drop_last());
    } else {
        lemma_empty_count_update(entries.drop_last(), position, entry);
        assert(updated.drop_last() =~= entries.drop_last().update(position, entry));
    }
}

/// Ordered insertion adds an empty slot exactly when the new slot is empty.
pub proof fn lemma_empty_count_insert(sorted: Seq<PriorityLevelEntry>, entry: PriorityLevelEntry)
    ensures
        spec_empty_count(spec_insert_entry(sorted, entry)) == spec_empty_count(sorted) + (if entry
            == PriorityLevelEntry::Empty {
            1int
        } else {
            0int
        }),
    decreases sorted.len(),
{
    let after = spec_insert_entry(sorted, entry);
    if sorted.len() == 0 {
        assert(after.drop_last() =~= sorted);
    } else if spec_entry_key(sorted.last()) <= spec_entry_key(entry) {
        assert(after.drop_last() =~= sorted);
    } else {
        lemma_empty_count_insert(sorted.drop_last(), entry);
        assert(after.drop_last() =~= spec_insert_entry(sorted.drop_last(), entry));
    }
}

/// Sorting keeps the number of empty slots.
pub proof fn lemma_empty_count_sort(entries: Seq<PriorityLevelEntry>)
    ensures
        spec_empty_count(spec_sort_entries(entries)) == spec_empty_count(entries),
    decreases entries.len(),
{
    if entries.len() > 0 {
        lemma_empty_count_sort(entries.drop_last());
        lemma_empty_count_insert(spec_sort_entries(entries.drop_last()), entries.last());
    }
}

/// Whether `entry` comes after `other` in the order of the slots.
pub fn entry_after(entry: &PriorityLevelEntry, other: &PriorityLevelEntry) -> (after: bool)
    ensures
        after == (spec_entry_key(*entry) > spec_entry_key(*other)),
{
    match (entry, other) {
        (PriorityLevelEntry::Empty, PriorityLevelEntry::Empty) => false,
        (PriorityLevelEntry::Occupied(_), PriorityLevelEntry::Empty) => false,
        (PriorityLevelEntry::Empty, PriorityLevelEntry::Occupied(_)) => true,
        (PriorityLevelEntry::Occupied((_, x)), PriorityLevelEntry::Occupied((_, y))) => *x > *y,
    }
}

/// Puts the slots in order: occupied slots by ascending remaining bytes, then
/// the empty ones; slots of equal remaining bytes keep the order they had.
pub fn sort_priority_levels(entries: &mut [PriorityLevelEntry; SCHEDULED_PRIORITY_LEVELS])
    ensures
        final(entries)@ == spec_sort_entries(old(entries)@),
{
    let mut sorted: Vec<PriorityLevelEntry> = Vec::new();
    let mut index: usize = 0;
    while index < SCHEDULED_PRIORITY_LEVELS
        invariant
            index <= SCHEDULED_PRIORITY_LEVELS,
            entries@ == old(entries)@,
            sorted@ == spec_sort_entries(entries@.take(index as int)),
        decreases SCHEDULED_PRIORITY_LEVELS - index,
    {
        let entry = entries[index];
        proof {
            lemma_sort_entries(entries@.take(index as int));
        }
        let mut at: usize = sorted.len();
        while at > 0 && entry_after(&sorted[at - 1], &entry)
            invariant
                at <= sorted.len(),
                forall|i: int|
                    at <= i < sorted.len() ==> spec_entry_key(entry) < spec_entry_key(sorted[i]),
            decreases at,
        {
            at = at - 1;
        }
        proof {
            assert forall|i: int| 0 <= i < at implies spec_entry_key(sorted[i]) <= spec_entry_key(
                entry,
            ) by {
                if at > 0 {
                    assert(spec_entry_key(sorted[i]) <= spec_entry_key(sorted[at - 1]));
                }
            }
            lemma_insert_entry_at(sorted@, entry, at as int);
            assert(entries@.take(index + 1).drop_last() =~= entries@.take(index as int));
        }
        sorted.insert(at, entry);
        index = index + 1;
    }
    proof {
        assert(entries@.take(SCHEDULED_PRIORITY_LEVELS as int) =~= entries@);
        lemma_sort_entries(entries@);
    }
    let mut index: usize = 0;
    while index < SCHEDULED_PRIORITY_LEVELS
        invariant
            index <= SCHEDULED_PRIORITY_LEVELS,
            sorted.len() == SCHEDULED_PRIORITY_LEVELS,
            sorted@ == spec_sort_entries(old(entries)@),
            forall|i: int| 0 <= i < index ==> entries[i] == sorted[i],
        decreases SCHEDULED_PRIORITY_LEVELS - index,
    {
        entries[index] = sorted[index];
        index = index + 1;
    }
    assert(entries@ =~= sorted@);
}

} // verus!
