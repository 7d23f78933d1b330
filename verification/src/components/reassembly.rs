//! Reassembly: the slots a receiver collects data datagrams in, and why the
//! content comes out whole whatever the order of arrival.
use crate::models::datagram::HomaDatagramView;
use crate::models::message::{
    lemma_concat_split,
    lemma_datagram_count,
    spec_concat_payloads,
    spec_datagram_count,
    spec_split,
    spec_split_datagram,
    HomaMessageView,
};
use vstd::prelude::*;

verus! {

/// The slots of a message none of whose datagrams has arrived.
pub open spec fn spec_no_datagrams(count: int) -> Seq<Option<HomaDatagramView>> {
    Seq::new(count as nat, |i: int| None)
}

/// Number of datagrams collected.
pub open spec fn spec_collected(slots: Seq<Option<HomaDatagramView>>) -> int
    decreases slots.len(),
{
    if slots.len() == 0 {
        0
    } else {
        spec_collected(slots.drop_last()) + if slots.last() is Some {
            1int
        } else {
            0int
        }
    }
}

/// Number of payload bytes collected.
pub open spec fn spec_collected_bytes(slots: Seq<Option<HomaDatagramView>>) -> int
    decreases slots.len(),
{
    if slots.len() == 0 {
        0
    } else {
        spec_collected_bytes(slots.drop_last()) + match slots.last() {
            Some(datagram) => datagram.payload.len() as int,
            None => 0int,
        }
    }
}

/// Whether `datagram` is taken into `slots`: its sequence number names a slot
/// and the slot is still free.
pub open spec fn spec_takes(slots: Seq<Option<HomaDatagramView>>, datagram: HomaDatagramView) -> bool {
    &&& datagram.sequence_number < slots.len()
    &&& slots[datagram.sequence_number as int] is None
}

/// The slots after `datagram` has arrived: it fills its slot if it is taken,
/// and is ignored otherwise.
pub open spec fn spec_deliver(
    slots: Seq<Option<HomaDatagramView>>,
    datagram: HomaDatagramView,
) -> Seq<Option<HomaDatagramView>> {
    if spec_takes(slots, datagram) {
        slots.update(datagram.sequence_number as int, Some(datagram))
    } else {
        slots
    }
}

/// The slots after `arrivals` have arrived one after the other.
pub open spec fn spec_deliver_all(
    slots: Seq<Option<HomaDatagramView>>,
    arrivals: Seq<HomaDatagramView>,
) -> Seq<Option<HomaDatagramView>>
    decreases arrivals.len(),
{
    if arrivals.len() == 0 {
        slots
    } else {
        spec_deliver(spec_deliver_all(slots, arrivals.drop_last()), arrivals.last())
    }
}

/// Whether every slot holds a datagram.
pub open spec fn spec_all_collected(slots: Seq<Option<HomaDatagramView>>) -> bool {
    forall|i: int| 0 <= i < slots.len() ==> (#[trigger] slots[i]) is Some
}

/// Whether every collected datagram sits in the slot of its sequence number
/// and has a payload whose length a 64-bit counter can hold.
pub open spec fn spec_slots_fit(slots: Seq<Option<HomaDatagramView>>) -> bool {
    forall|i: int|
        0 <= i < slots.len() && (#[trigger] slots[i]) is Some ==> slots[i].unwrap().payload.len()
            <= u64::MAX && slots[i].unwrap().sequence_number == i
}

/// The datagrams of slots that are all filled.
pub open spec fn spec_unwrap_all(slots: Seq<Option<HomaDatagramView>>) -> Seq<HomaDatagramView> {
    Seq::new(slots.len(), |i: int| slots[i].unwrap())
}

/// The content that filled slots reassemble to: their payloads in sequence
/// order.
pub open spec fn spec_reassemble(slots: Seq<Option<HomaDatagramView>>) -> Seq<u8> {
    spec_concat_payloads(spec_unwrap_all(slots))
}

/// Nothing is collected before the first arrival.
pub proof fn lemma_no_datagrams(count: int)
    requires
        0 <= count,
    ensures
        spec_collected(spec_no_datagrams(count)) == 0,
        spec_collected_bytes(spec_no_datagrams(count)) == 0,
    decreases count,
{
    if count > 0 {
        lemma_no_datagrams(count - 1);
        assert(spec_no_datagrams(count).drop_last() =~= spec_no_datagrams(count - 1));
    }
}

/// The number of collected datagrams lies between nothing and everything,
/// and reaches everything exactly when every slot is filled.
pub proof fn lemma_collected_bounds(slots: Seq<Option<HomaDatagramView>>)
    ensures
        0 <= spec_collected(slots) <= slots.len(),
        spec_collected(slots) == slots.len() <==> spec_all_collected(slots),
    decreases slots.len(),
{
    if slots.len() > 0 {
        let front = slots.drop_last();
        lemma_collected_bounds(front);
        if spec_all_collected(slots) {
            assert forall|i: int| 0 <= i < front.len() implies (#[trigger] front[i]) is Some by {
                assert(front[i] == slots[i]);
            }
            assert(slots[slots.len() - 1] is Some);
        }
        if spec_collected(slots) == slots.len() {
            assert(spec_all_collected(front));
            assert forall|i: int| 0 <= i < slots.len() implies (#[trigger] slots[i]) is Some by {
                if i < front.len() {
                    assert(front[i] == slots[i]);
                }
            }
        }
    }
}

/// The bytes collected are no more than a full 64-bit count for each
/// collected datagram.
pub proof fn lemma_collected_bytes_bounds(slots: Seq<Option<HomaDatagramView>>)
    requires
        spec_slots_fit(slots),
    ensures
        0 <= spec_collected_bytes(slots) <= spec_collected(slots) * u64::MAX,
    decreases slots.len(),
{
    if slots.len() > 0 {
        let front = slots.drop_last();
        assert forall|i: int| 0 <= i < front.len() && (#[trigger] front[i]) is Some implies front[i].unwrap().payload.len()
            <= u64::MAX && front[i].unwrap().sequence_number == i by {
            assert(front[i] == slots[i]);
        }
        lemma_collected_bytes_bounds(front);
        lemma_collected_bounds(front);
        let c = spec_collected(front);
        assert((c + 1) * u64::MAX == c * u64::MAX + u64::MAX) by (nonlinear_arith);
        assert(slots[slots.len() - 1] == slots.last());
    }
}

/// With every slot filled, the bytes collected are the bytes the slots
/// reassemble to.
pub proof fn lemma_collected_bytes_of_all(slots: Seq<Option<HomaDatagramView>>)
    requires
        spec_all_collected(slots),
    ensures
        spec_collected_bytes(slots) == spec_reassemble(slots).len(),
    decreases slots.len(),
{
    let all = spec_unwrap_all(slots);
    if slots.len() > 0 {
        let front = slots.drop_last();
        assert forall|i: int| 0 <= i < front.len() implies (#[trigger] front[i]) is Some by {
            assert(front[i] == slots[i]);
        }
        lemma_collected_bytes_of_all(front);
        assert(all.drop_last() =~= spec_unwrap_all(front));
        assert(slots[slots.len() - 1] is Some);
        assert(all.last() == slots.last().unwrap());
    }
}

/// Filling a free slot adds one datagram and its payload to the counts.
pub proof fn lemma_collect_one(
    slots: Seq<Option<HomaDatagramView>>,
    at: int,
    datagram: HomaDatagramView,
)
    requires
        0 <= at < slots.len(),
        slots[at] is None,
    ensures
        spec_collected(slots.update(at, Some(datagram))) == spec_collected(slots) + 1,
        spec_collected_bytes(slots.update(at, Some(datagram))) == spec_collected_bytes(slots)
            + datagram.payload.len(),
    decreases slots.len(),
{
    let updated = slots.update(at, Some(datagram));
    if at == slots.len() - 1 {
        assert(updated.drop_last() =~= slots.drop_last());
    } else {
        lemma_collect_one(slots.drop_last(), at, datagram);
        assert(updated.drop_last() =~= slots.drop_last().update(at, Some(datagram)));
    }
}

/// Whether `arrival` carries the same slice as `sent`: it has its sequence
/// number and its payload, whatever else it was stamped with on its way.
pub open spec fn spec_carries(arrival: HomaDatagramView, sent: HomaDatagramView) -> bool {
    arrival.sequence_number == sent.sequence_number && arrival.payload == sent.payload
}

/// Whether `arrival` carries a slice of `message`.
pub open spec fn spec_is_slice(
    arrival: HomaDatagramView,
    message: HomaMessageView,
    payload_length: int,
) -> bool {
    exists|j: int|
        0 <= j < spec_split(message, payload_length).len() && spec_carries(
            arrival,
            #[trigger] spec_split(message, payload_length)[j],
        )
}

/// Whether one of `arrivals` carries the slice `sent`.
pub open spec fn spec_has_arrived(arrivals: Seq<HomaDatagramView>, sent: HomaDatagramView) -> bool {
    exists|k: int| 0 <= k < arrivals.len() && spec_carries(#[trigger] arrivals[k], sent)
}

/// Whether every one of `arrivals` carries a slice of `message`.
pub open spec fn spec_arrivals_of(
    arrivals: Seq<HomaDatagramView>,
    message: HomaMessageView,
    payload_length: int,
) -> bool {
    forall|k: int|
        0 <= k < arrivals.len() ==> spec_is_slice(#[trigger] arrivals[k], message, payload_length)
}

/// Whether every slice of `message` is carried by one of `arrivals`.
pub open spec fn spec_covers(
    arrivals: Seq<HomaDatagramView>,
    message: HomaMessageView,
    payload_length: int,
) -> bool {
    forall|j: int|
        0 <= j < spec_split(message, payload_length).len() ==> spec_has_arrived(
            arrivals,
            #[trigger] spec_split(message, payload_length)[j],
        )
}

/// Datagrams with the same payloads lay out to the same bytes.
pub proof fn lemma_concat_same_payloads(one: Seq<HomaDatagramView>, other: Seq<HomaDatagramView>)
    requires
        one.len() == other.len(),
        forall|i: int| 0 <= i < one.len() ==> (#[trigger] one[i]).payload == other[i].payload,
    ensures
        spec_concat_payloads(one) == spec_concat_payloads(other),
    decreases one.len(),
{
    if one.len() > 0 {
        assert forall|i: int| 0 <= i < one.drop_last().len() implies (
        #[trigger] one.drop_last()[i]).payload == other.drop_last()[i].payload by {
            assert(one[i].payload == other[i].payload);
        }
        lemma_concat_same_payloads(one.drop_last(), other.drop_last());
        assert(one[one.len() - 1].payload == other[other.len() - 1].payload);
    }
}

/// Completeness: if every arrival carries a slice of one message and every
/// slice of the message is carried by at least one arrival, in whatever
/// order and however often, then every slot is filled with the slice of its
/// index and the slots reassemble to the content of the message.
pub proof fn lemma_delivery_completes(
    message: HomaMessageView,
    payload_length: int,
    arrivals: Seq<HomaDatagramView>,
)
    requires
        0 < payload_length,
        spec_datagram_count(message.content.len() as int, payload_length) <= u32::MAX,
        spec_arrivals_of(arrivals, message, payload_length),
        spec_covers(arrivals, message, payload_length),
    ensures
        ({
            let slots = spec_deliver_all(
                spec_no_datagrams(
                    spec_datagram_count(message.content.len() as int, payload_length),
                ),
                arrivals,
            );
            &&& slots.len() == spec_split(message, payload_length).len()
            &&& spec_all_collected(slots)
            &&& forall|i: int|
                0 <= i < slots.len() ==> spec_carries(
                    (#[trigger] slots[i]).unwrap(),
                    spec_split(message, payload_length)[i],
                )
            &&& spec_reassemble(slots) == message.content
        }),
{
    let count = spec_datagram_count(message.content.len() as int, payload_length);
    let all = spec_split(message, payload_length);
    let start = spec_no_datagrams(count);
    lemma_datagram_count(message.content.len() as int, payload_length);
    lemma_deliveries(message, payload_length, arrivals);
    let slots = spec_deliver_all(start, arrivals);
    assert forall|i: int| 0 <= i < slots.len() implies (#[trigger] slots[i]) is Some by {
        assert(spec_has_arrived(arrivals, all[i]));
        let k = choose|k: int|
            0 <= k < arrivals.len() && spec_carries(#[trigger] arrivals[k], all[i]);
        assert(arrivals[k].sequence_number == i);
    }
    let collected = spec_unwrap_all(slots);
    assert forall|i: int| 0 <= i < collected.len() implies (#[trigger] collected[i]).payload
        == all[i].payload by {
        assert(slots[i] is Some);
    }
    lemma_concat_same_payloads(collected, all);
    lemma_concat_split(message, payload_length);
}

/// After arrivals that carry slices of one message, a slot is filled exactly
/// when a slice of its index has arrived, and then with that slice.
pub proof fn lemma_deliveries(
    message: HomaMessageView,
    payload_length: int,
    arrivals: Seq<HomaDatagramView>,
)
    requires
        0 < payload_length,
        spec_datagram_count(message.content.len() as int, payload_length) <= u32::MAX,
        spec_arrivals_of(arrivals, message, payload_length),
    ensures
        ({
            let count = spec_datagram_count(message.content.len() as int, payload_length);
            let slots = spec_deliver_all(
                spec_no_datagrams(count),
                arrivals,
            );
            &&& slots.len() == count
            &&& forall|i: int|
                0 <= i < count ==> ((#[trigger] slots[i]) is Some <==> exists|k: int|
                    0 <= k < arrivals.len() && (#[trigger] arrivals[k]).sequence_number == i)
            &&& forall|i: int|
                0 <= i < count && (#[trigger] slots[i]) is Some ==> spec_carries(
                    slots[i].unwrap(),
                    spec_split(message, payload_length)[i],
                )
        }),
    decreases arrivals.len(),
{
    let length = message.content.len() as int;
    let count = spec_datagram_count(length, payload_length);
    let all = spec_split(message, payload_length);
    let start = spec_no_datagrams(count);
    lemma_datagram_count(length, payload_length);
    let slots = spec_deliver_all(start, arrivals);
    if arrivals.len() == 0 {
    } else {
        let front = arrivals.drop_last();
        let last = arrivals.last();
        assert forall|k: int| 0 <= k < front.len() implies spec_is_slice(
            #[trigger] front[k],
            message,
            payload_length,
        ) by {
            assert(front[k] == arrivals[k]);
        }
        lemma_deliveries(message, payload_length, front);
        let inner = spec_deliver_all(start, front);
        let at = arrivals.len() - 1;
        assert(spec_is_slice(arrivals[at], message, payload_length));
        let j = choose|j: int| 0 <= j < all.len() && spec_carries(last, #[trigger] all[j]);
        assert(all[j] == spec_split_datagram(message, payload_length, j));
        assert(last.sequence_number == j);
        assert forall|i: int| 0 <= i < count implies ((#[trigger] slots[i]) is Some <==> exists|
            k: int,
        |
            0 <= k < arrivals.len() && (#[trigger] arrivals[k]).sequence_number == i) by {
            if slots[i] is Some {
                if inner[i] is Some {
                    let k = choose|k: int|
                        0 <= k < front.len() && (#[trigger] front[k]).sequence_number == i;
                    assert(arrivals[k].sequence_number == i);
                } else {
                    assert(arrivals[arrivals.len() - 1].sequence_number == i);
                }
            }
            if exists|k: int|
                0 <= k < arrivals.len() && (#[trigger] arrivals[k]).sequence_number == i {
                let k = choose|k: int|
                    0 <= k < arrivals.len() && (#[trigger] arrivals[k]).sequence_number == i;
                if k < front.len() {
                    assert(front[k].sequence_number == i);
                }
            }
        }
    }
}

/// Reassembly is correct for every order of arrival: when the arrivals are
/// the datagrams of a message in any permutation, the slots reassemble to
/// the content of the message.
pub proof fn lemma_any_order_reassembles(
    message: HomaMessageView,
    payload_length: int,
    arrivals: Seq<HomaDatagramView>,
)
    requires
        0 < payload_length,
        spec_datagram_count(message.content.len() as int, payload_length) <= u32::MAX,
        arrivals.to_multiset() == spec_split(message, payload_length).to_multiset(),
    ensures
        spec_reassemble(
            spec_deliver_all(
                spec_no_datagrams(
                    spec_datagram_count(message.content.len() as int, payload_length),
                ),
                arrivals,
            ),
        ) == message.content,
{
    lemma_permutation_covers(message, payload_length, arrivals);
    lemma_delivery_completes(message, payload_length, arrivals);
}

/// A permutation of the datagrams of a message carries every slice of the
/// message and nothing else.
pub proof fn lemma_permutation_covers(
    message: HomaMessageView,
    payload_length: int,
    arrivals: Seq<HomaDatagramView>,
)
    requires
        arrivals.to_multiset() == spec_split(message, payload_length).to_multiset(),
    ensures
        spec_arrivals_of(arrivals, message, payload_length),
        spec_covers(arrivals, message, payload_length),
{
    broadcast use vstd::seq_lib::group_to_multiset_ensures;

    let all = spec_split(message, payload_length);
    assert forall|k: int| 0 <= k < arrivals.len() implies spec_is_slice(
        #[trigger] arrivals[k],
        message,
        payload_length,
    ) by {
        assert(arrivals.contains(arrivals[k]));
        assert(arrivals.to_multiset().count(arrivals[k]) > 0);
        assert(all.contains(arrivals[k]));
        let j = choose|j: int| 0 <= j < all.len() && all[j] == arrivals[k];
        assert(spec_carries(arrivals[k], all[j]));
    }
    assert forall|j: int| 0 <= j < all.len() implies spec_has_arrived(
        arrivals,
        #[trigger] all[j],
    ) by {
        assert(all.contains(all[j]));
        assert(all.to_multiset().count(all[j]) > 0);
        assert(arrivals.contains(all[j]));
        let k = choose|k: int| 0 <= k < arrivals.len() && arrivals[k] == all[j];
        assert(spec_carries(arrivals[k], all[j]));
    }
}

} // verus!
