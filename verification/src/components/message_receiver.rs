//! The per-message receiver: it collects the datagrams of one incoming
//! message, asks for those that are missing, grants the scheduled ones, and
//! hands the reassembled message over.
//!
//! The receiver is a state that the caller drives: it reports every arrival
//! or expired timer to the receiver and performs what the receiver answers.
use crate::components::reassembly::{
    lemma_collect_one,
    lemma_collected_bounds,
    lemma_collected_bytes_bounds,
    lemma_collected_bytes_of_all,
    lemma_delivery_completes,
    lemma_no_datagrams,
    lemma_permutation_covers,
    spec_all_collected,
    spec_arrivals_of,
    spec_carries,
    spec_is_slice,
    spec_collected,
    spec_collected_bytes,
    spec_covers,
    spec_deliver,
    spec_deliver_all,
    spec_no_datagrams,
    spec_reassemble,
    spec_slots_fit,
    spec_takes,
    spec_unwrap_all,
};
use crate::config::{Config, MAXIMUM_DATAGRAM_PAYLOAD_LENGTH, UNSCHEDULED_PRIORITY_PARTITIONS};
use crate::models::datagram::{
    lemma_sealed_packet_is_accepted,
    spec_accepts,
    spec_bytes_views,
    spec_checksum,
    spec_deserialize,
    spec_to_ipv4,
    HomaDatagram,
    HomaDatagramType,
    HomaDatagramView,
    IPV4_HEADER_LENGTH,
};
use crate::models::message::{
    datagram_count,
    lemma_datagram_count,
    lemma_slice_bounds,
    spec_concat_payloads,
    spec_datagram_count,
    spec_split,
    spec_split_datagram,
    HomaMessage,
    HomaMessageView,
};
use crate::components::priority_manager::HIGHEST_UNSCHEDULED_PRIORITY;
use vstd::prelude::*;
use vstd::slice::slice_to_vec;

verus! {

/// Whether the unscheduled datagrams are in.
#[derive(Clone, Copy, Debug, PartialEq, Eq, Structural)]
pub enum UnscheduledState {
    Incomplete,
    Complete,
}

/// Whether as many bytes are in as the message has.
#[derive(Clone, Copy, Debug, PartialEq, Eq, Structural)]
pub enum ScheduledState {
    Incomplete,
    Complete,
}

/// What a receiver does once the unscheduled phase is over.
#[derive(Clone, Copy, Debug, PartialEq, Eq, Structural)]
pub enum ReceiverPhase {
    /// Give the message up.
    Exit,
    /// Complete the message.
    Complete,
    /// Register for a scheduled slot and collect the rest under grants.
    Scheduled,
}

/// What woke the receiver.
#[derive(Debug, PartialEq, Eq)]
pub enum ReceiverEvent {
    /// A data datagram of the message arrived.
    Datagram(HomaDatagram),
    /// The retransmit timer expired.
    Timeout,
}

/// What the receiver answers while unscheduled datagrams are outstanding.
#[derive(Debug, PartialEq, Eq)]
pub enum UnscheduledStep {
    /// Nothing to do but to wait on.
    Wait,
    /// Send these resend requests, then wait on.
    Resend(Vec<Vec<u8>>),
    /// The unscheduled datagrams are in.
    Complete,
    /// The resend budget is spent: abandon the message.
    Incomplete,
}

/// What the receiver answers while scheduled datagrams are outstanding.
#[derive(Clone, Copy, Debug, PartialEq, Eq, Structural)]
pub enum ScheduledStep {
    /// Fetch the current scheduled priority and send the next grant.
    Grant,
    /// As many bytes are in as the message has: give up the slot and
    /// complete.
    Complete,
    /// The grant budget is spent: give up the slot and abandon the message.
    Incomplete,
}

/// The state of one receiver.
#[derive(Debug, PartialEq, Eq)]
pub struct MessageReceiver {
    message_id: u64,
    source_address: [u8; 4],
    destination_address: [u8; 4],
    source_id: u32,
    destination_id: u32,
    priority: u8,
    local_workload: [u64; UNSCHEDULED_PRIORITY_PARTITIONS],
    remote_workload: [u64; UNSCHEDULED_PRIORITY_PARTITIONS],
    message_length: u64,
    datagrams: Vec<Option<HomaDatagram>>,
    expected_datagrams: u32,
    collected_datagrams: u32,
    collected_bytes: u128,
    unscheduled_only: bool,
    unscheduled_resends: usize,
    scheduled_resends: usize,
    payload_length: u16,
    unscheduled_limit: usize,
    resends: usize,
    large_resends: usize,
}

/// The state of one receiver as a mathematical value.
pub struct MessageReceiverView {
    pub message_id: u64,
    pub source_address: Seq<u8>,
    pub destination_address: Seq<u8>,
    pub source_id: u32,
    pub destination_id: u32,
    /// The scheduled priority fetched last.
    pub priority: u8,
    pub local_workload: Seq<u64>,
    pub remote_workload: Seq<u64>,
    pub message_length: u64,
    /// One slot per datagram of the message, filled as they arrive.
    pub datagrams: Seq<Option<HomaDatagramView>>,
    pub expected_datagrams: u32,
    pub collected_datagrams: u32,
    /// Sum of the payload lengths of the collected datagrams.
    pub collected_bytes: u128,
    pub unscheduled_only: bool,
    /// Resend rounds spent on unscheduled datagrams.
    pub unscheduled_resends: usize,
    /// Timeouts in a row while a granted datagram was outstanding.
    pub scheduled_resends: usize,
    pub payload_length: u16,
    pub unscheduled_limit: usize,
    pub resends: usize,
    pub large_resends: usize,
}

/// The views of the slots of a receiver.
pub open spec fn spec_slot_views(slots: Seq<Option<HomaDatagram>>) -> Seq<
    Option<HomaDatagramView>,
> {
    slots.map_values(
        |slot: Option<HomaDatagram>|
            match slot {
                Some(datagram) => Some(datagram@),
                None => None,
            },
    )
}

impl MessageReceiverView {
    /// The counters count what the slots hold, there is a slot for each
    /// datagram of the message, and what sits in a slot sits in the slot of
    /// its number.
    pub open spec fn wf(self) -> bool {
        &&& 0 < self.payload_length <= MAXIMUM_DATAGRAM_PAYLOAD_LENGTH
        &&& self.datagrams.len() == spec_datagram_count(
            self.message_length as int,
            self.payload_length as int,
        )
        &&& self.expected_datagrams == self.datagrams.len()
        &&& self.collected_datagrams == spec_collected(self.datagrams)
        &&& self.collected_bytes == spec_collected_bytes(self.datagrams)
        &&& spec_slots_fit(self.datagrams)
        &&& self.unscheduled_only == (self.message_length <= self.unscheduled_limit
            * self.payload_length)
        &&& self.unscheduled_resends <= self.resends
        &&& self.scheduled_resends <= self.large_resends
        &&& self.source_address.len() == 4
        &&& self.destination_address.len() == 4
        &&& self.local_workload.len() == UNSCHEDULED_PRIORITY_PARTITIONS
    }

    /// Whether the unscheduled phase is over: as many bytes are in as the
    /// message has, or as many datagrams as may be sent without a grant.
    pub open spec fn unscheduled_complete(self) -> bool {
        self.collected_bytes == self.message_length || self.collected_datagrams
            >= self.unscheduled_limit
    }

    /// Whether as many bytes are in as the message has.
    pub open spec fn scheduled_complete(self) -> bool {
        self.collected_bytes == self.message_length
    }

    /// Bytes of the message that are still to come: the length of the
    /// message less the bytes collected, and none once as many bytes are in
    /// as the message has.
    pub open spec fn remaining_bytes(self) -> int {
        if self.collected_bytes <= self.message_length {
            self.message_length - self.collected_bytes
        } else {
            0
        }
    }

    /// The state once `datagram` has arrived: if its sequence number names
    /// a slot that is still free, the datagram is in that slot and the
    /// counters have grown by one datagram and its payload; else nothing has
    /// changed.
    pub open spec fn add(self, datagram: HomaDatagramView) -> MessageReceiverView {
        if spec_takes(self.datagrams, datagram) {
            MessageReceiverView {
                datagrams: spec_deliver(self.datagrams, datagram),
                collected_datagrams: (self.collected_datagrams + 1) as u32,
                collected_bytes: (self.collected_bytes + datagram.payload.len()) as u128,
                ..self
            }
        } else {
            self
        }
    }

    /// What follows the unscheduled phase: the message is given up if the
    /// phase ended incomplete, completed if it needs no grant, and else
    /// goes on to the scheduled phase.
    pub open spec fn after_unscheduled(self, state: UnscheduledState) -> ReceiverPhase {
        if state == UnscheduledState::Incomplete {
            ReceiverPhase::Exit
        } else if self.unscheduled_only {
            ReceiverPhase::Complete
        } else {
            ReceiverPhase::Scheduled
        }
    }

    /// The control datagram of kind `kind` for sequence number
    /// `sequence_number` that this receiver sends back: from the
    /// destination of the message to its source, with the local workload and
    /// a valid checksum.
    pub open spec fn control_datagram(
        self,
        kind: HomaDatagramType,
        sequence_number: u32,
        priority: u8,
    ) -> HomaDatagramView {
        let blank = HomaDatagramView {
            datagram_type: kind,
            message_id: self.message_id,
            source_id: self.destination_id,
            destination_id: self.source_id,
            sequence_number,
            workload: self.local_workload,
            priority,
            ..HomaDatagramView::zero()
        };
        blank.with_checksum(spec_checksum(blank))
    }

    /// The packet that carries a control datagram back to the sender, at the
    /// highest priority.
    pub open spec fn control_packet(
        self,
        kind: HomaDatagramType,
        sequence_number: u32,
        priority: u8,
    ) -> Seq<u8> {
        spec_to_ipv4(
            self.control_datagram(kind, sequence_number, priority),
            self.destination_address,
            self.source_address,
            HIGHEST_UNSCHEDULED_PRIORITY,
        )
    }

    /// The resend requests for the missing datagrams among the first
    /// `limit`, in sequence order.
    pub open spec fn resend_packets(self, limit: int) -> Seq<Seq<u8>>
        decreases limit,
    {
        if limit <= 0 {
            Seq::empty()
        } else {
            let earlier = self.resend_packets(limit - 1);
            if limit - 1 < self.datagrams.len() && self.datagrams[limit - 1] is None {
                earlier.push(
                    self.control_packet(HomaDatagramType::Resend, (limit - 1) as u32, 0),
                )
            } else {
                earlier
            }
        }
    }

    /// The resend requests that a timeout calls for: one for each datagram
    /// that is missing among those that may be sent without a grant.
    pub open spec fn missing_packets(self) -> Seq<Seq<u8>> {
        self.resend_packets(
            if self.unscheduled_limit < self.datagrams.len() {
                self.unscheduled_limit as int
            } else {
                self.datagrams.len() as int
            },
        )
    }

    /// The message that the collected datagrams make up.
    pub open spec fn message(self) -> HomaMessageView {
        HomaMessageView {
            id: self.message_id,
            source_address: self.source_address,
            destination_address: self.destination_address,
            source_id: self.source_id,
            destination_id: self.destination_id,
            content: spec_reassemble(self.datagrams),
        }
    }
}

impl View for MessageReceiver {
    type V = MessageReceiverView;

    closed spec fn view(&self) -> MessageReceiverView {
        MessageReceiverView {
            message_id: self.message_id,
            source_address: self.source_address@,
            destination_address: self.destination_address@,
            source_id: self.source_id,
            destination_id: self.destination_id,
            priority: self.priority,
            local_workload: self.local_workload@,
            remote_workload: self.remote_workload@,
            message_length: self.message_length,
            datagrams: spec_slot_views(self.datagrams@),
            expected_datagrams: self.expected_datagrams,
            collected_datagrams: self.collected_datagrams,
            collected_bytes: self.collected_bytes,
            unscheduled_only: self.unscheduled_only,
            unscheduled_resends: self.unscheduled_resends,
            scheduled_resends: self.scheduled_resends,
            payload_length: self.payload_length,
            unscheduled_limit: self.unscheduled_limit,
            resends: self.resends,
            large_resends: self.large_resends,
        }
    }
}

/// Whether a datagram can be the first of a message for a receiver with
/// payload ceiling `payload_length`: the message has no more datagrams than
/// sequence numbers can tell apart, and the datagram is one of them.
pub open spec fn spec_opens_message(datagram: HomaDatagramView, payload_length: int) -> bool {
    &&& spec_datagram_count(datagram.message_length as int, payload_length) <= u32::MAX
    &&& datagram.sequence_number < spec_datagram_count(
        datagram.message_length as int,
        payload_length,
    )
}

/// The receiver that a first datagram opens: it holds that datagram and
/// nothing else, has spent none of its budgets, and knows the peer's
/// partition vector but not yet the local one.
pub open spec fn spec_opened(
    datagram: HomaDatagramView,
    source_address: Seq<u8>,
    destination_address: Seq<u8>,
    config: Config,
) -> MessageReceiverView {
    MessageReceiverView {
        message_id: datagram.message_id,
        source_address,
        destination_address,
        source_id: datagram.source_id,
        destination_id: datagram.destination_id,
        priority: 0,
        local_workload: HomaDatagramView::zero().workload,
        remote_workload: datagram.workload,
        message_length: datagram.message_length,
        datagrams: spec_no_datagrams(
            spec_datagram_count(
                datagram.message_length as int,
                config.DATAGRAM_PAYLOAD_LENGTH as int,
            ),
        ).update(datagram.sequence_number as int, Some(datagram)),
        expected_datagrams: spec_datagram_count(
            datagram.message_length as int,
            config.DATAGRAM_PAYLOAD_LENGTH as int,
        ) as u32,
        collected_datagrams: 1,
        collected_bytes: datagram.payload.len() as u128,
        unscheduled_only: datagram.message_length <= config.spec_rtt_bytes(),
        unscheduled_resends: 0,
        scheduled_resends: 0,
        payload_length: config.DATAGRAM_PAYLOAD_LENGTH,
        unscheduled_limit: config.UNSCHEDULED_DATAGRAM_LIMIT,
        resends: config.RESENDS,
        large_resends: config.LARGE_RESENDS,
    }
}

/// The state once `arrivals` have arrived one after the other.
pub open spec fn spec_receive_all(
    receiver: MessageReceiverView,
    arrivals: Seq<HomaDatagramView>,
) -> MessageReceiverView
    decreases arrivals.len(),
{
    if arrivals.len() == 0 {
        receiver
    } else {
        spec_receive_all(receiver, arrivals.drop_last()).add(arrivals.last())
    }
}

/// A receiver that a datagram opens is well formed.
pub proof fn lemma_opened_wf(
    datagram: HomaDatagramView,
    source_address: Seq<u8>,
    destination_address: Seq<u8>,
    config: Config,
)
    requires
        config.wf(),
        source_address.len() == 4,
        destination_address.len() == 4,
        datagram.payload.len() <= u64::MAX,
        spec_opens_message(datagram, config.DATAGRAM_PAYLOAD_LENGTH as int),
    ensures
        spec_opened(datagram, source_address, destination_address, config).wf(),
{
    let length = datagram.message_length as int;
    let payload = config.DATAGRAM_PAYLOAD_LENGTH as int;
    let count = spec_datagram_count(length, payload);
    let at = datagram.sequence_number as int;
    lemma_datagram_count(length, payload);
    lemma_no_datagrams(count);
    lemma_collect_one(spec_no_datagrams(count), at, datagram);
}

/// An arrival keeps a receiver well formed and never lowers the number of
/// datagrams collected, which is what the next grant names.
pub proof fn lemma_add(receiver: MessageReceiverView, datagram: HomaDatagramView)
    requires
        receiver.wf(),
        datagram.payload.len() <= u64::MAX,
    ensures
        receiver.add(datagram).wf(),
        receiver.add(datagram).collected_datagrams >= receiver.collected_datagrams,
        receiver.add(datagram).datagrams == spec_deliver(receiver.datagrams, datagram),
        spec_takes(receiver.datagrams, datagram) ==> {
            &&& receiver.add(datagram).collected_datagrams == receiver.collected_datagrams + 1
            &&& receiver.add(datagram).collected_bytes == receiver.collected_bytes
                + datagram.payload.len()
        },
{
    if spec_takes(receiver.datagrams, datagram) {
        let at = datagram.sequence_number as int;
        let after = receiver.datagrams.update(at, Some(datagram));
        lemma_collect_one(receiver.datagrams, at, datagram);
        lemma_collected_bounds(receiver.datagrams);
        lemma_collected_bounds(after);
        lemma_collected_bytes_bounds(receiver.datagrams);
        lemma_collected_bytes_bounds(after);
        lemma_counters_fit(spec_collected(after), after.len() as int);
    }
}

/// As many full 64-bit counts as a message has datagrams fit a 128-bit
/// counter.
pub proof fn lemma_counters_fit(collected: int, slots: int)
    requires
        0 <= collected <= slots <= u32::MAX,
    ensures
        collected * u64::MAX <= u128::MAX,
{
    assert(collected * u64::MAX <= 0xffff_ffff * 0xffff_ffff_ffff_ffff) by (nonlinear_arith)
        requires
            0 <= collected <= 0xffff_ffff,
    ;
}

/// Arrivals keep a receiver well formed, and its slots are those that the
/// arrivals fill.
pub proof fn lemma_receive_all(receiver: MessageReceiverView, arrivals: Seq<HomaDatagramView>)
    requires
        receiver.wf(),
        forall|k: int| 0 <= k < arrivals.len() ==> (#[trigger] arrivals[k]).payload.len() <= u64::MAX,
    ensures
        spec_receive_all(receiver, arrivals).wf(),
        spec_receive_all(receiver, arrivals).collected_datagrams >= receiver.collected_datagrams,
        spec_receive_all(receiver, arrivals).datagrams == spec_deliver_all(
            receiver.datagrams,
            arrivals,
        ),
        spec_receive_all(receiver, arrivals) == (MessageReceiverView {
            datagrams: spec_receive_all(receiver, arrivals).datagrams,
            collected_datagrams: spec_receive_all(receiver, arrivals).collected_datagrams,
            collected_bytes: spec_receive_all(receiver, arrivals).collected_bytes,
            ..receiver
        }),
    decreases arrivals.len(),
{
    if arrivals.len() > 0 {
        let front = arrivals.drop_last();
        assert forall|k: int| 0 <= k < front.len() implies (#[trigger] front[k]).payload.len()
            <= u64::MAX by {
            assert(front[k] == arrivals[k]);
        }
        lemma_receive_all(receiver, front);
        assert(arrivals[arrivals.len() - 1] == arrivals.last());
        lemma_add(spec_receive_all(receiver, front), arrivals.last());
    }
}

/// Completeness: a receiver that the first arrival of a message opens, and
/// that then sees arrivals that carry slices of the same message in any
/// order and any number of copies, has the whole message as soon as every
/// slice of the message has arrived at least once, and reassembles exactly
/// the content that was sent.
pub proof fn lemma_receiver_completes(
    message: HomaMessageView,
    source_address: Seq<u8>,
    destination_address: Seq<u8>,
    config: Config,
    first: HomaDatagramView,
    rest: Seq<HomaDatagramView>,
)
    requires
        config.wf(),
        source_address.len() == 4,
        destination_address.len() == 4,
        spec_datagram_count(
            message.content.len() as int,
            config.DATAGRAM_PAYLOAD_LENGTH as int,
        ) <= u32::MAX,
        first.message_length == message.content.len(),
        spec_arrivals_of(seq![first] + rest, message, config.DATAGRAM_PAYLOAD_LENGTH as int),
        spec_covers(seq![first] + rest, message, config.DATAGRAM_PAYLOAD_LENGTH as int),
    ensures
        ({
            let receiver = spec_receive_all(
                spec_opened(first, source_address, destination_address, config),
                rest,
            );
            &&& receiver.wf()
            &&& receiver.scheduled_complete()
            &&& receiver.unscheduled_complete()
            &&& spec_all_collected(receiver.datagrams)
            &&& receiver.message().content == message.content
        }),
{
    let payload = config.DATAGRAM_PAYLOAD_LENGTH as int;
    let length = message.content.len() as int;
    let count = spec_datagram_count(length, payload);
    let all = spec_split(message, payload);
    let opened = spec_opened(first, source_address, destination_address, config);
    let receiver = spec_receive_all(opened, rest);
    let arrivals = seq![first] + rest;
    lemma_datagram_count(length, payload);
    assert forall|k: int| 0 <= k < arrivals.len() implies (#[trigger] arrivals[k]).payload.len()
        <= u64::MAX by {
        assert(spec_is_slice(arrivals[k], message, payload));
        let j = choose|j: int| 0 <= j < all.len() && spec_carries(arrivals[k], #[trigger] all[j]);
        assert(all[j] == spec_split_datagram(message, payload, j));
        lemma_slice_bounds(length, payload, j);
    }
    assert(arrivals[0] == first);
    assert forall|k: int| 0 <= k < rest.len() implies (#[trigger] rest[k]).payload.len()
        <= u64::MAX by {
        assert(arrivals[k + 1] == rest[k]);
    }
    assert(spec_is_slice(arrivals[0], message, payload));
    let j = choose|j: int| 0 <= j < all.len() && spec_carries(first, #[trigger] all[j]);
    assert(all[j] == spec_split_datagram(message, payload, j));
    assert(spec_opens_message(first, payload));
    lemma_opened_wf(first, source_address, destination_address, config);
    lemma_receive_all(opened, rest);
    assert(opened.datagrams == spec_deliver(spec_no_datagrams(count), first));
    lemma_deliver_all_prepend(spec_no_datagrams(count), first, rest);
    lemma_delivery_completes(message, payload, arrivals);
    lemma_collected_bytes_of_all(receiver.datagrams);
}

/// Reassembly is correct for every order of arrival: a receiver that sees
/// the datagrams of a message in any permutation reassembles exactly the
/// content that was sent.
pub proof fn lemma_receiver_reassembles_any_order(
    message: HomaMessageView,
    source_address: Seq<u8>,
    destination_address: Seq<u8>,
    config: Config,
    first: HomaDatagramView,
    rest: Seq<HomaDatagramView>,
)
    requires
        config.wf(),
        source_address.len() == 4,
        destination_address.len() == 4,
        message.content.len() <= u64::MAX,
        spec_datagram_count(
            message.content.len() as int,
            config.DATAGRAM_PAYLOAD_LENGTH as int,
        ) <= u32::MAX,
        (seq![first] + rest).to_multiset() == spec_split(
            message,
            config.DATAGRAM_PAYLOAD_LENGTH as int,
        ).to_multiset(),
    ensures
        spec_receive_all(
            spec_opened(first, source_address, destination_address, config),
            rest,
        ).scheduled_complete(),
        spec_receive_all(
            spec_opened(first, source_address, destination_address, config),
            rest,
        ).message().content == message.content,
{
    broadcast use vstd::seq_lib::group_to_multiset_ensures;

    let payload = config.DATAGRAM_PAYLOAD_LENGTH as int;
    let all = spec_split(message, payload);
    let arrivals = seq![first] + rest;
    lemma_permutation_covers(message, payload, arrivals);
    assert(arrivals[0] == first);
    assert(arrivals.contains(first));
    assert(arrivals.to_multiset().count(first) > 0);
    assert(all.contains(first));
    let j = choose|j: int| 0 <= j < all.len() && all[j] == first;
    assert(first == spec_split_datagram(message, payload, j));
    lemma_receiver_completes(message, source_address, destination_address, config, first, rest);
}

/// What the receiver emits reaches the sender whole: each of its control
/// packets, once the header is taken off, is accepted, and decodes to the
/// control datagram that was sent.
pub proof fn lemma_control_packet_is_accepted(
    receiver: MessageReceiverView,
    kind: HomaDatagramType,
    sequence_number: u32,
    priority: u8,
)
    requires
        receiver.wf(),
    ensures
        ({
            let bytes = receiver.control_packet(kind, sequence_number, priority).skip(
                IPV4_HEADER_LENGTH as int,
            );
            &&& spec_accepts(bytes)
            &&& spec_deserialize(bytes) == Some(
                receiver.control_datagram(kind, sequence_number, priority),
            )
        }),
{
    let blank = HomaDatagramView {
        datagram_type: kind,
        message_id: receiver.message_id,
        source_id: receiver.destination_id,
        destination_id: receiver.source_id,
        sequence_number,
        workload: receiver.local_workload,
        priority,
        ..HomaDatagramView::zero()
    };
    lemma_sealed_packet_is_accepted(
        blank,
        receiver.destination_address,
        receiver.source_address,
        HIGHEST_UNSCHEDULED_PRIORITY,
    );
}

/// Arrivals after a first arrival fill the slots as all of them together do.
pub proof fn lemma_deliver_all_prepend(
    slots: Seq<Option<HomaDatagramView>>,
    first: HomaDatagramView,
    rest: Seq<HomaDatagramView>,
)
    ensures
        spec_deliver_all(spec_deliver(slots, first), rest) == spec_deliver_all(
            slots,
            seq![first] + rest,
        ),
    decreases rest.len(),
{
    let all = seq![first] + rest;
    if rest.len() == 0 {
        assert(all.drop_last() =~= Seq::empty());
        assert(all.last() == first);
        assert(spec_deliver_all(slots, all.drop_last()) == slots);
        assert(rest =~= Seq::empty());
    } else {
        lemma_deliver_all_prepend(slots, first, rest.drop_last());
        assert(all.drop_last() =~= seq![first] + rest.drop_last());
        assert(all.last() == rest.last());
    }
}

impl MessageReceiver {
    /// The receiver of the message that `datagram` is the first datagram
    /// seen of, or `None` if its sequence number lies outside the message
    /// that it announces.
    pub fn new(
        datagram: HomaDatagram,
        source_address: [u8; 4],
        destination_address: [u8; 4],
        config: &Config,
    ) -> (receiver: Option<MessageReceiver>)
        requires
            config.wf(),
        ensures
            receiver is Some <==> spec_opens_message(
                datagram@,
                config.DATAGRAM_PAYLOAD_LENGTH as int,
            ),
            receiver matches Some(r) ==> r@.wf() && r@ == spec_opened(
                datagram@,
                source_address@,
                destination_address@,
                *config,
            ),
    {
        let message_length = datagram.message_length;
        let expected = datagram_count(message_length, config.DATAGRAM_PAYLOAD_LENGTH);
        if expected > u32::MAX as u64 || datagram.sequence_number as u64 >= expected {
            return None;
        }
        let mut datagrams: Vec<Option<HomaDatagram>> = Vec::new();
        let mut index: u64 = 0;
        while index < expected
            invariant
                index <= expected,
                datagrams.len() == index,
                forall|i: int| 0 <= i < index ==> (#[trigger] datagrams[i]) is None,
            decreases expected - index,
        {
            datagrams.push(None);
            index = index + 1;
        }
        let ghost empty = spec_slot_views(datagrams@);
        let ghost first = datagram@;
        proof {
            assert(empty =~= spec_no_datagrams(expected as int));
            lemma_no_datagrams(expected as int);
            lemma_collect_one(empty, datagram.sequence_number as int, first);
        }
        let unscheduled_only = message_length <= config.rtt_bytes();
        let receiver = MessageReceiver {
            message_id: datagram.message_id,
            source_address,
            destination_address,
            source_id: datagram.source_id,
            destination_id: datagram.destination_id,
            priority: 0,
            local_workload: [0u64, 0u64, 0u64, 0u64, 0u64],
            remote_workload: datagram.workload,
            message_length,
            datagrams,
            expected_datagrams: expected as u32,
            collected_datagrams: 1,
            collected_bytes: datagram.payload.len() as u128,
            unscheduled_only,
            unscheduled_resends: 0,
            scheduled_resends: 0,
            payload_length: config.DATAGRAM_PAYLOAD_LENGTH,
            unscheduled_limit: config.UNSCHEDULED_DATAGRAM_LIMIT,
            resends: config.RESENDS,
            large_resends: config.LARGE_RESENDS,
        };
        let sequence_number = datagram.sequence_number as usize;
        let mut receiver = receiver;
        receiver.datagrams[sequence_number] = Some(datagram);
        proof {
            assert(receiver@.datagrams =~= empty.update(sequence_number as int, Some(first)));
            assert(receiver@.local_workload =~= HomaDatagramView::zero().workload);
        }
        Some(receiver)
    }

    /// Id of the message being received.
    pub fn message_id(&self) -> (id: u64)
        ensures
            id == self@.message_id,
    {
        self.message_id
    }

    /// Length of the whole message in bytes, as the first datagram
    /// announced it.
    pub fn message_length(&self) -> (length: u64)
        ensures
            length == self@.message_length,
    {
        self.message_length
    }

    /// Whether the message is short enough never to need a grant.
    pub fn unscheduled_only(&self) -> (only: bool)
        ensures
            only == self@.unscheduled_only,
    {
        self.unscheduled_only
    }

    /// Number of datagrams collected so far: the sequence number of the next
    /// grant.
    pub fn collected_datagrams(&self) -> (count: u32)
        ensures
            count == self@.collected_datagrams,
    {
        self.collected_datagrams
    }

    /// Number of datagrams of the whole message.
    pub fn expected_datagrams(&self) -> (count: u32)
        ensures
            count == self@.expected_datagrams,
    {
        self.expected_datagrams
    }

    /// Bytes of the message that are still to come, or zero once as many
    /// bytes as the message has are in: what the message is registered with
    /// for a scheduled slot.
    pub fn remaining_bytes(&self) -> (remaining: u64)
        ensures
            remaining == self@.remaining_bytes(),
    {
        if self.collected_bytes <= self.message_length as u128 {
            (self.message_length as u128 - self.collected_bytes) as u64
        } else {
            0
        }
    }

    /// The peer and the partition vector it advertised with the first
    /// datagram, to be made known to the priority manager.
    pub fn put_remote_workload(&self) -> (advertised: ([u8; 4], [u64;
        UNSCHEDULED_PRIORITY_PARTITIONS]))
        ensures
            advertised.0@ == self@.source_address,
            advertised.1@ == self@.remote_workload,
    {
        (self.source_address, self.remote_workload)
    }

    /// Takes over the local partition vector, which every control datagram
    /// from now on carries.
    pub fn get_local_workload(&mut self, workload: [u64; UNSCHEDULED_PRIORITY_PARTITIONS])
        ensures
            final(self)@ == (MessageReceiverView { local_workload: workload@, ..old(self)@ }),
    {
        self.local_workload = workload;
    }

    /// Takes over the scheduled priority that the priority manager answered,
    /// which the grants from now on carry.
    pub fn get_priority(&mut self, priority: u8)
        ensures
            final(self)@ == (MessageReceiverView { priority, ..old(self)@ }),
    {
        self.priority = priority;
    }

    /// What to register the message with for a scheduled slot: its id and
    /// the bytes still to come.
    pub fn register_priority(&self) -> (registration: (u64, u64))
        ensures
            registration.0 == self@.message_id,
            registration.1 == self@.remaining_bytes(),
    {
        (self.message_id, self.remaining_bytes())
    }

    /// Where the receiver goes once the unscheduled phase has ended in
    /// `state`: it gives up if datagrams are still missing, completes the
    /// message if none of its datagrams needs a grant, and asks for a
    /// scheduled slot otherwise.
    pub fn after_unscheduled(&self, state: UnscheduledState) -> (next: ReceiverPhase)
        ensures
            next == self@.after_unscheduled(state),
    {
        match state {
            UnscheduledState::Incomplete => ReceiverPhase::Exit,
            UnscheduledState::Complete => if self.unscheduled_only {
                ReceiverPhase::Complete
            } else {
                ReceiverPhase::Scheduled
            },
        }
    }

    /// Puts `datagram` into the slot of its sequence number if that slot
    /// exists and is free, and counts it and the bytes of its payload;
    /// ignores it otherwise. Returns the number of datagrams of the whole
    /// message.
    pub fn add_datagram(&mut self, datagram: HomaDatagram) -> (expected: u64)
        requires
            old(self)@.wf(),
        ensures
            final(self)@.wf(),
            final(self)@ == old(self)@.add(datagram@),
            expected == final(self)@.datagrams.len(),
            final(self)@.collected_datagrams >= old(self)@.collected_datagrams,
            spec_takes(old(self)@.datagrams, datagram@) ==> {
                &&& final(self)@.collected_datagrams == old(self)@.collected_datagrams + 1
                &&& final(self)@.collected_bytes == old(self)@.collected_bytes
                    + datagram@.payload.len()
            },
    {
        let ghost before = self@;
        let ghost arrived = datagram@;
        let sequence_number = datagram.sequence_number as usize;
        let size = datagram.payload.len();
        proof {
            lemma_add(before, arrived);
        }
        if sequence_number < self.datagrams.len() && self.datagrams[sequence_number].is_none() {
            proof {
                assert(before.datagrams[sequence_number as int] is None);
                assert(spec_takes(before.datagrams, arrived));
                let after = before.datagrams.update(sequence_number as int, Some(arrived));
                lemma_collect_one(before.datagrams, sequence_number as int, arrived);
                lemma_collected_bounds(after);
                lemma_collected_bytes_bounds(after);
                lemma_counters_fit(spec_collected(after), after.len() as int);
            }
            self.collected_datagrams = self.collected_datagrams + 1;
            self.collected_bytes = self.collected_bytes + size as u128;
            self.datagrams[sequence_number] = Some(datagram);
            proof {
                assert(self@.datagrams =~= before.datagrams.update(
                    sequence_number as int,
                    Some(arrived),
                ));
            }
        } else {
            proof {
                if sequence_number < self.datagrams.len() {
                    assert(before.datagrams[sequence_number as int] is None
                        == self.datagrams[sequence_number as int] is None);
                }
                assert(!spec_takes(before.datagrams, arrived));
            }
        }
        self.datagrams.len() as u64
    }

    /// Whether the unscheduled phase is over.
    pub fn check_message_unscheduled(&self) -> (state: UnscheduledState)
        ensures
            state == if self@.unscheduled_complete() {
                UnscheduledState::Complete
            } else {
                UnscheduledState::Incomplete
            },
    {
        if self.collected_bytes == self.message_length as u128 {
            return UnscheduledState::Complete;
        }
        if self.collected_datagrams as u64 >= self.unscheduled_limit as u64 {
            return UnscheduledState::Complete;
        }
        UnscheduledState::Incomplete
    }

    /// Whether as many bytes are in as the message has.
    pub fn check_message_scheduled(&self) -> (state: ScheduledState)
        ensures
            state == if self@.scheduled_complete() {
                ScheduledState::Complete
            } else {
                ScheduledState::Incomplete
            },
    {
        if self.collected_bytes == self.message_length as u128 {
            return ScheduledState::Complete;
        }
        ScheduledState::Incomplete
    }

    /// The control datagram of kind `kind` for `sequence_number`, with its
    /// checksum in place.
    fn control_datagram(&self, kind: HomaDatagramType, sequence_number: u32, priority: u8) -> (datagram:
        HomaDatagram)
        ensures
            datagram@ == self@.control_datagram(kind, sequence_number, priority),
            datagram.payload.len() == 0,
    {
        let mut datagram = HomaDatagram {
            datagram_type: kind,
            message_id: self.message_id,
            source_id: self.destination_id,
            destination_id: self.source_id,
            sequence_number,
            workload: self.local_workload,
            priority,
            message_length: 0,
            payload: Vec::new(),
            checksum: 0,
        };
        let _ = datagram.checksum();
        datagram
    }

    /// The packet that carries a control datagram back to the sender.
    fn control_packet(&self, kind: HomaDatagramType, sequence_number: u32, priority: u8) -> (packet:
        Vec<u8>)
        ensures
            packet@ == self@.control_packet(kind, sequence_number, priority),
    {
        let datagram = self.control_datagram(kind, sequence_number, priority);
        datagram.to_ipv4(
            self.destination_address,
            self.source_address,
            HIGHEST_UNSCHEDULED_PRIORITY,
        )
    }

    /// The resend requests for every datagram that is still missing among
    /// those that may be sent without a grant, in sequence order.
    pub fn request_resend_unscheduled_datagrams(&self) -> (packets: Vec<Vec<u8>>)
        requires
            self@.wf(),
        ensures
            spec_bytes_views(packets@) == self@.missing_packets(),
    {
        let limit: usize = if self.unscheduled_limit < self.datagrams.len() {
            self.unscheduled_limit
        } else {
            self.datagrams.len()
        };
        let mut packets: Vec<Vec<u8>> = Vec::new();
        let mut i: usize = 0;
        assert(spec_bytes_views(packets@) =~= self@.resend_packets(0));
        while i < limit
            invariant
                i <= limit <= self.datagrams.len(),
                self@.wf(),
                spec_bytes_views(packets@) == self@.resend_packets(i as int),
            decreases limit - i,
        {
            let ghost earlier = packets@;
            if self.datagrams[i].is_none() {
                let packet = self.control_packet(HomaDatagramType::Resend, i as u32, 0);
                packets.push(packet);
                assert(spec_bytes_views(packets@) =~= spec_bytes_views(earlier).push(packet@));
                assert(self@.datagrams[i as int] is None);
            } else {
                assert(self@.datagrams[i as int] is Some);
            }
            i = i + 1;
        }
        packets
    }

    /// The grant for sequence number `sequence_number` at the scheduled
    /// priority fetched last.
    pub fn grant(&self, sequence_number: u32) -> (packet: Vec<u8>)
        ensures
            packet@ == self@.control_packet(
                HomaDatagramType::Grant,
                sequence_number,
                self@.priority,
            ),
    {
        self.control_packet(HomaDatagramType::Grant, sequence_number, self.priority)
    }

    /// The scheduled priority in force once the priority manager was asked:
    /// the one it answered, or the one fetched last if it gave no answer
    /// because the message holds no slot.
    pub fn priority_after(&self, answer: Option<u8>) -> (priority: u8)
        ensures
            priority == match answer {
                Some(answered) => answered,
                None => self@.priority,
            },
    {
        match answer {
            Some(answered) => answered,
            None => self.priority,
        }
    }

    /// Takes over `priority` as the current scheduled priority and returns
    /// the grant that is due: it names the number of datagrams collected so
    /// far as the next sequence number to send.
    pub fn next_grant(&mut self, priority: u8) -> (packet: Vec<u8>)
        ensures
            final(self)@ == (MessageReceiverView { priority, ..old(self)@ }),
            packet@ == final(self)@.control_packet(
                HomaDatagramType::Grant,
                old(self)@.collected_datagrams,
                priority,
            ),
    {
        self.priority = priority;
        self.grant(self.collected_datagrams)
    }

    /// The message that the collected datagrams make up: their payloads in
    /// sequence order.
    pub fn build_message(&self) -> (message: HomaMessage)
        requires
            self@.wf(),
            spec_all_collected(self@.datagrams),
        ensures
            message@ == self@.message(),
    {
        let ghost all = spec_unwrap_all(self@.datagrams);
        let mut content: Vec<u8> = Vec::new();
        let mut i: usize = 0;
        assert(content@ =~= spec_concat_payloads(all.take(0)));
        while i < self.datagrams.len()
            invariant
                i <= self.datagrams.len(),
                all == spec_unwrap_all(self@.datagrams),
                all.len() == self.datagrams.len(),
                spec_all_collected(self@.datagrams),
                content@ == spec_concat_payloads(all.take(i as int)),
            decreases self.datagrams.len() - i,
        {
            assert(self@.datagrams[i as int] is Some);
            match &self.datagrams[i] {
                Some(datagram) => {
                    let mut payload = slice_to_vec(datagram.payload.as_slice());
                    content.append(&mut payload);
                    proof {
                        assert(all.take(i + 1).drop_last() =~= all.take(i as int));
                        assert(all.take(i + 1).last() == datagram@);
                    }
                },
                None => {},
            }
            i = i + 1;
        }
        assert(all.take(all.len() as int) =~= all);
        HomaMessage {
            id: self.message_id,
            source_address: self.source_address,
            destination_address: self.destination_address,
            source_id: self.source_id,
            destination_id: self.destination_id,
            content,
        }
    }

    /// Completes the message if every one of its datagrams is in: returns
    /// it for delivery, together with the closing grant, which names the
    /// number of datagrams of the whole message, which is the number
    /// collected, at priority zero. With a datagram still missing there is
    /// nothing to deliver: the receiver is left as it is, and the caller
    /// abandons the message.
    pub fn complete(&mut self) -> (done: Option<(HomaMessage, Vec<u8>)>)
        requires
            old(self)@.wf(),
        ensures
            done is Some <==> spec_all_collected(old(self)@.datagrams),
            done is None ==> final(self)@ == old(self)@,
            done matches Some(delivery) ==> {
                &&& final(self)@ == (MessageReceiverView { priority: 0, ..old(self)@ })
                &&& delivery.0@ == old(self)@.message()
                &&& delivery.1@ == final(self)@.control_packet(
                    HomaDatagramType::Grant,
                    old(self)@.expected_datagrams,
                    0,
                )
                &&& old(self)@.expected_datagrams == old(self)@.collected_datagrams
            },
    {
        proof {
            lemma_collected_bounds(self@.datagrams);
        }
        if self.collected_datagrams != self.expected_datagrams {
            return None;
        }
        let message = self.build_message();
        self.priority = 0;
        let packet = self.grant(self.expected_datagrams);
        Some((message, packet))
    }

    /// One step of the unscheduled phase, to be taken while
    /// [`Self::check_message_unscheduled`] says `Incomplete`.
    ///
    /// A datagram is added to the message; the phase is then over or goes
    /// on. A timeout spends one resend round and asks for the missing
    /// datagrams again, unless the budget of rounds is spent: then the
    /// message is abandoned.
    pub fn receive_unscheduled_datagrams(&mut self, event: ReceiverEvent) -> (step: UnscheduledStep)
        requires
            old(self)@.wf(),
        ensures
            final(self)@.wf(),
            final(self)@.collected_datagrams >= old(self)@.collected_datagrams,
            match event {
                ReceiverEvent::Timeout => if old(self)@.unscheduled_resends == old(self)@.resends {
                    step == UnscheduledStep::Incomplete && final(self)@ == old(self)@
                } else {
                    &&& step matches UnscheduledStep::Resend(packets) && spec_bytes_views(packets@)
                        == old(self)@.missing_packets()
                    &&& final(self)@ == (MessageReceiverView {
                        unscheduled_resends: (old(self)@.unscheduled_resends + 1) as usize,
                        ..old(self)@
                    })
                },
                ReceiverEvent::Datagram(datagram) => {
                    &&& final(self)@ == old(self)@.add(datagram@)
                    &&& step == if final(self)@.unscheduled_complete() {
                        UnscheduledStep::Complete
                    } else {
                        UnscheduledStep::Wait
                    }
                },
            },
    {
        match event {
            ReceiverEvent::Timeout => {
                if self.unscheduled_resends == self.resends {
                    return UnscheduledStep::Incomplete;
                }
                let packets = self.request_resend_unscheduled_datagrams();
                self.unscheduled_resends = self.unscheduled_resends + 1;
                UnscheduledStep::Resend(packets)
            },
            ReceiverEvent::Datagram(datagram) => {
                self.add_datagram(datagram);
                match self.check_message_unscheduled() {
                    UnscheduledState::Complete => UnscheduledStep::Complete,
                    UnscheduledState::Incomplete => UnscheduledStep::Wait,
                }
            },
        }
    }

    /// One step of the scheduled phase, to be taken once the message holds
    /// a scheduled slot and its first grant is out.
    ///
    /// A datagram is added to the message, which then has all its bytes or
    /// is due its next grant. A timeout makes the grant due again, unless as many
    /// timeouts in a row as the budget allows have passed: then the message
    /// is abandoned.
    pub fn receive_scheduled_datagrams(&mut self, event: ReceiverEvent) -> (step: ScheduledStep)
        requires
            old(self)@.wf(),
        ensures
            final(self)@.wf(),
            final(self)@.collected_datagrams >= old(self)@.collected_datagrams,
            match event {
                ReceiverEvent::Timeout => if old(self)@.scheduled_resends == old(
                    self,
                )@.large_resends {
                    step == ScheduledStep::Incomplete && final(self)@ == old(self)@
                } else {
                    &&& step == ScheduledStep::Grant
                    &&& final(self)@ == (MessageReceiverView {
                        scheduled_resends: (old(self)@.scheduled_resends + 1) as usize,
                        ..old(self)@
                    })
                },
                ReceiverEvent::Datagram(datagram) => {
                    &&& final(self)@ == (MessageReceiverView {
                        scheduled_resends: 0,
                        ..old(self)@.add(datagram@)
                    })
                    &&& step == if final(self)@.scheduled_complete() {
                        ScheduledStep::Complete
                    } else {
                        ScheduledStep::Grant
                    }
                },
            },
    {
        match event {
            ReceiverEvent::Timeout => {
                if self.scheduled_resends == self.large_resends {
                    return ScheduledStep::Incomplete;
                }
                self.scheduled_resends = self.scheduled_resends + 1;
                ScheduledStep::Grant
            },
            ReceiverEvent::Datagram(datagram) => {
                self.add_datagram(datagram);
                self.scheduled_resends = 0;
                match self.check_message_scheduled() {
                    ScheduledState::Complete => ScheduledStep::Complete,
                    ScheduledState::Incomplete => ScheduledStep::Grant,
                }
            },
        }
    }
}

} // verus!
