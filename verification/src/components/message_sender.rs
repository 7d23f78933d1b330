//! The per-message sender: it emits the unscheduled datagrams of one
//! outgoing message, repeats them while no answer comes, and then serves the
//! grants and resend requests of the receiver.
//!
//! The sender is a state that the caller drives: it reports every control
//! datagram or expired timer to the sender and sends what the sender answers.
use crate::config::{Config, MAXIMUM_DATAGRAM_PAYLOAD_LENGTH, UNSCHEDULED_PRIORITY_PARTITIONS};
use crate::components::reassembly::spec_carries;
use crate::models::datagram::{
    lemma_sealed_packet_is_accepted,
    spec_accepts,
    spec_bytes_views,
    spec_checksum,
    spec_deserialize,
    spec_to_ipv4,
    HomaDatagram,
    HomaDatagramType,
    HomaDatagramView,
    IPV4_HEADER_LENGTH,
};
use crate::models::message::{
    lemma_datagram_count,
    lemma_slice_bounds,
    spec_datagram_count,
    spec_split,
    spec_views,
    HomaMessage,
    HomaMessageView,
};
use vstd::prelude::*;

verus! {

/// What woke the sender.
#[derive(Debug, PartialEq, Eq)]
pub enum SenderEvent {
    /// A grant or a resend request for the message arrived.
    Control(HomaDatagram),
    /// The timer expired.
    Timeout,
}

/// What the sender answers to an event.
#[derive(Debug, PartialEq, Eq)]
pub struct SenderStep {
    /// Packets to send now, in this order.
    pub packets: Vec<Vec<u8>>,
    /// The partition vector the peer advertised with the event, to be made
    /// known to the priority manager.
    pub workload: Option<[u64; UNSCHEDULED_PRIORITY_PARTITIONS]>,
    /// Whether the sender is done with the message, transmitted or not.
    pub finished: bool,
}

/// Where a sender stands.
#[derive(Clone, Copy, Debug, PartialEq, Eq, Structural)]
pub enum SenderPhase {
    /// It waits for the first control datagram and sends the burst again
    /// on a timeout.
    Unscheduled,
    /// It sends what control datagrams ask for.
    Requested,
    /// It is done with the message.
    Done,
}

impl SenderStep {
    /// The phase that follows a step of the unscheduled phase: the sender is
    /// done if the step finished the message, serves requests from now on if
    /// the step answered a control datagram, and else waits on.
    pub open spec fn phase_after_unscheduled(self) -> SenderPhase {
        if self.finished {
            SenderPhase::Done
        } else if self.workload is Some {
            SenderPhase::Requested
        } else {
            SenderPhase::Unscheduled
        }
    }

    /// The phase that follows this step of the unscheduled phase: see
    /// [`MessageSender::send_unscheduled_datagrams`], which answers a
    /// control datagram, and nothing else, with a partition vector.
    pub fn after_unscheduled(&self) -> (next: SenderPhase)
        ensures
            next == self.phase_after_unscheduled(),
    {
        if self.finished {
            SenderPhase::Done
        } else if self.workload.is_some() {
            SenderPhase::Requested
        } else {
            SenderPhase::Unscheduled
        }
    }

    /// The phase that follows a step of scheduled service: the sender is
    /// done if the step finished the message, and else serves on.
    pub fn after_requested(&self) -> (next: SenderPhase)
        ensures
            next == if self.finished {
                SenderPhase::Done
            } else {
                SenderPhase::Requested
            },
    {
        if self.finished {
            SenderPhase::Done
        } else {
            SenderPhase::Requested
        }
    }
}

/// The state of one sender.
#[derive(Debug, PartialEq, Eq)]
pub struct MessageSender {
    message_id: u64,
    source_address: [u8; 4],
    destination_address: [u8; 4],
    source_id: u32,
    destination_id: u32,
    content_length: u64,
    datagrams: Vec<HomaDatagram>,
    unscheduled_priority: u8,
    workload: [u64; UNSCHEDULED_PRIORITY_PARTITIONS],
    resend_counter: usize,
    unscheduled_limit: usize,
    resends: usize,
}

/// The state of one sender as a mathematical value.
pub struct MessageSenderView {
    pub message_id: u64,
    pub source_address: Seq<u8>,
    pub destination_address: Seq<u8>,
    pub source_id: u32,
    pub destination_id: u32,
    pub content_length: u64,
    /// The datagrams the content was divided into.
    pub datagrams: Seq<HomaDatagramView>,
    /// The DSCP of datagrams that no grant assigns one to.
    pub unscheduled_priority: u8,
    /// The local partition vector, which every datagram carries.
    pub workload: Seq<u64>,
    /// Timeouts spent on the unscheduled burst.
    pub resend_counter: usize,
    pub unscheduled_limit: usize,
    pub resends: usize,
}

impl MessageSenderView {
    /// The datagrams are few enough to be numbered and small enough to be
    /// framed, and the resend budget is not overdrawn.
    pub open spec fn wf(self) -> bool {
        &&& self.datagrams.len() <= u32::MAX
        &&& forall|i: int|
            0 <= i < self.datagrams.len() ==> (#[trigger] self.datagrams[i]).payload.len()
                <= MAXIMUM_DATAGRAM_PAYLOAD_LENGTH
        &&& self.resend_counter <= self.resends
        &&& self.source_address.len() == 4
        &&& self.destination_address.len() == 4
        &&& self.workload.len() == UNSCHEDULED_PRIORITY_PARTITIONS
    }

    /// Datagram `index` as it goes out: with the local workload, with
    /// `marked` in its priority field, and with a valid checksum.
    pub open spec fn outgoing(self, index: int, marked: u8) -> HomaDatagramView {
        let stamped = HomaDatagramView {
            workload: self.workload,
            priority: marked,
            checksum: 0,
            ..self.datagrams[index]
        };
        stamped.with_checksum(spec_checksum(stamped))
    }

    /// The packet that carries datagram `index` to the receiver with
    /// `priority` as its DSCP.
    pub open spec fn packet(self, index: int, marked: u8, priority: u8) -> Seq<u8> {
        spec_to_ipv4(
            self.outgoing(index, marked),
            self.source_address,
            self.destination_address,
            priority,
        )
    }

    /// The packets of the datagrams from `start` up to, but not including,
    /// `end`, as far as the message has them: each marked with the
    /// unscheduled priority and sent with `priority` as its DSCP.
    pub open spec fn slice_packets(self, start: int, end: int, priority: u8) -> Seq<Seq<u8>>
        decreases end - start,
    {
        if end <= start {
            Seq::empty()
        } else {
            let earlier = self.slice_packets(start, end - 1, priority);
            if 0 <= end - 1 < self.datagrams.len() {
                earlier.push(self.packet(end - 1, self.unscheduled_priority, priority))
            } else {
                earlier
            }
        }
    }

    /// The unscheduled burst: the first datagrams of the message, as many
    /// as may be sent without a grant, at the unscheduled priority.
    pub open spec fn burst(self) -> Seq<Seq<u8>> {
        self.slice_packets(
            0,
            if self.unscheduled_limit < self.datagrams.len() {
                self.unscheduled_limit as int
            } else {
                self.datagrams.len() as int
            },
            self.unscheduled_priority,
        )
    }

    /// Whether `control` says that the receiver has the whole message: a
    /// grant that names the number of datagrams of the message.
    pub open spec fn transmitted(self, control: HomaDatagramView) -> bool {
        control.datagram_type == HomaDatagramType::Grant && control.sequence_number
            == self.datagrams.len()
    }

    /// What a control datagram asks to be sent: a grant, the datagram it
    /// names at the priority it assigns; a resend request, the datagram it
    /// names at the unscheduled priority; nothing if the message has no such
    /// datagram, or for any other kind.
    pub open spec fn requested(self, control: HomaDatagramView) -> Seq<Seq<u8>> {
        if control.sequence_number >= self.datagrams.len() {
            Seq::empty()
        } else if control.datagram_type == HomaDatagramType::Grant {
            seq![self.packet(control.sequence_number as int, 0, control.priority)]
        } else if control.datagram_type == HomaDatagramType::Resend {
            seq![self.packet(control.sequence_number as int, 0, self.unscheduled_priority)]
        } else {
            Seq::empty()
        }
    }

    /// What the sender answers to a control datagram: nothing more if it
    /// closes the message, else what it asks for.
    pub open spec fn answer(self, control: HomaDatagramView) -> Seq<Seq<u8>> {
        if self.transmitted(control) {
            Seq::empty()
        } else {
            self.requested(control)
        }
    }
}

impl View for MessageSender {
    type V = MessageSenderView;

    closed spec fn view(&self) -> MessageSenderView {
        MessageSenderView {
            message_id: self.message_id,
            source_address: self.source_address@,
            destination_address: self.destination_address@,
            source_id: self.source_id,
            destination_id: self.destination_id,
            content_length: self.content_length,
            datagrams: spec_views(self.datagrams@),
            unscheduled_priority: self.unscheduled_priority,
            workload: self.workload@,
            resend_counter: self.resend_counter,
            unscheduled_limit: self.unscheduled_limit,
            resends: self.resends,
        }
    }
}

/// The sender that a message starts with: its content divided into
/// datagrams, no priority or partition vector taken over yet, and none of
/// its budget spent.
pub open spec fn spec_sender_of(message: HomaMessageView, config: Config) -> MessageSenderView {
    MessageSenderView {
        message_id: message.id,
        source_address: message.source_address,
        destination_address: message.destination_address,
        source_id: message.source_id,
        destination_id: message.destination_id,
        content_length: message.content.len() as u64,
        datagrams: spec_split(message, config.DATAGRAM_PAYLOAD_LENGTH as int),
        unscheduled_priority: 0,
        workload: HomaDatagramView::zero().workload,
        resend_counter: 0,
        unscheduled_limit: config.UNSCHEDULED_DATAGRAM_LIMIT,
        resends: config.RESENDS,
    }
}

/// What the sender emits reaches the receiver whole: each of its packets,
/// once the header is taken off, is accepted, and decodes to a datagram that
/// carries the slice of its index.
pub proof fn lemma_packet_is_accepted(
    sender: MessageSenderView,
    index: int,
    marked: u8,
    priority: u8,
)
    requires
        sender.wf(),
        0 <= index < sender.datagrams.len(),
    ensures
        ({
            let bytes = sender.packet(index, marked, priority).skip(IPV4_HEADER_LENGTH as int);
            &&& spec_accepts(bytes)
            &&& spec_deserialize(bytes) == Some(sender.outgoing(index, marked))
            &&& spec_carries(sender.outgoing(index, marked), sender.datagrams[index])
        }),
{
    let stamped = HomaDatagramView {
        workload: sender.workload,
        priority: marked,
        checksum: 0,
        ..sender.datagrams[index]
    };
    lemma_sealed_packet_is_accepted(
        stamped,
        sender.source_address,
        sender.destination_address,
        priority,
    );
}

impl MessageSender {
    /// The sender of `message`, with its content divided into datagrams.
    pub fn new(message: &HomaMessage, config: &Config) -> (sender: MessageSender)
        requires
            config.wf(),
            spec_datagram_count(
                message.content.len() as int,
                config.DATAGRAM_PAYLOAD_LENGTH as int,
            ) <= u32::MAX,
        ensures
            sender@.wf(),
            sender@ == spec_sender_of(message@, *config),
    {
        let datagrams = message.split(config);
        let sender = MessageSender {
            message_id: message.id,
            source_address: message.source_address,
            destination_address: message.destination_address,
            source_id: message.source_id,
            destination_id: message.destination_id,
            content_length: message.content.len() as u64,
            datagrams,
            unscheduled_priority: 0,
            workload: [0u64, 0u64, 0u64, 0u64, 0u64],
            resend_counter: 0,
            unscheduled_limit: config.UNSCHEDULED_DATAGRAM_LIMIT,
            resends: config.RESENDS,
        };
        proof {
            let length = message.content.len() as int;
            let payload = config.DATAGRAM_PAYLOAD_LENGTH as int;
            lemma_datagram_count(length, payload);
            assert(sender@.workload =~= HomaDatagramView::zero().workload);
            assert forall|i: int| 0 <= i < sender@.datagrams.len() implies (
            #[trigger] sender@.datagrams[i]).payload.len()
                <= MAXIMUM_DATAGRAM_PAYLOAD_LENGTH by {
                lemma_slice_bounds(length, payload, i);
            }
        }
        sender
    }

    /// Id of the message being sent.
    pub fn message_id(&self) -> (id: u64)
        ensures
            id == self@.message_id,
    {
        self.message_id
    }

    /// The peer and the length of the content: what the unscheduled
    /// priority is asked for.
    pub fn destination(&self) -> (target: ([u8; 4], u64))
        ensures
            target.0@ == self@.destination_address,
            target.1 == self@.content_length,
    {
        (self.destination_address, self.content_length)
    }

    /// Number of datagrams of the message.
    pub fn total_datagrams(&self) -> (total: usize)
        ensures
            total == self@.datagrams.len(),
    {
        self.datagrams.len()
    }

    /// Whether `grant` says that the receiver has the whole message.
    pub fn check_message_transmitted(&self, grant: &HomaDatagram) -> (transmitted: bool)
        requires
            self@.wf(),
        ensures
            transmitted == self@.transmitted(grant@),
    {
        match grant.datagram_type {
            HomaDatagramType::Grant => grant.sequence_number as usize == self.datagrams.len(),
            _ => false,
        }
    }

    /// The packet of datagram `i` with `marked` in its priority field and
    /// `priority` as its DSCP, or `None` if the message has no such datagram.
    fn send_marked_datagram(&self, i: usize, marked: u8, priority: u8) -> (packet: Option<Vec<u8>>)
        requires
            self@.wf(),
        ensures
            match packet {
                Some(packet) => i < self@.datagrams.len() && packet@ == self@.packet(
                    i as int,
                    marked,
                    priority,
                ),
                None => i >= self@.datagrams.len(),
            },
    {
        if i >= self.datagrams.len() {
            return None;
        }
        let mut datagram = self.datagrams[i].clone();
        assert(datagram@ == self@.datagrams[i as int]);
        datagram.workload = self.workload;
        datagram.priority = marked;
        datagram.checksum = 0;
        let _ = datagram.checksum();
        Some(datagram.to_ipv4(self.source_address, self.destination_address, priority))
    }

    /// The packet of datagram `i` with `priority` as its DSCP, or `None` if
    /// the message has no such datagram.
    pub fn send_datagram(&self, i: usize, priority: u8) -> (packet: Option<Vec<u8>>)
        requires
            self@.wf(),
        ensures
            match packet {
                Some(packet) => i < self@.datagrams.len() && packet@ == self@.packet(
                    i as int,
                    0,
                    priority,
                ),
                None => i >= self@.datagrams.len(),
            },
    {
        self.send_marked_datagram(i, 0, priority)
    }

    /// The packets of the datagrams from `start` up to, but not including,
    /// `end`, as far as the message has them, with `priority` as their DSCP.
    pub fn send_datagram_slice(&self, start: usize, end: usize, priority: u8) -> (packets: Vec<
        Vec<u8>,
    >)
        requires
            self@.wf(),
        ensures
            spec_bytes_views(packets@) == self@.slice_packets(start as int, end as int, priority),
    {
        let mut packets: Vec<Vec<u8>> = Vec::new();
        let mut i: usize = start;
        assert(spec_bytes_views(packets@) =~= self@.slice_packets(
            start as int,
            start as int,
            priority,
        ));
        if end <= start {
            assert(spec_bytes_views(packets@) =~= self@.slice_packets(
                start as int,
                end as int,
                priority,
            ));
            return packets;
        }
        while i < end
            invariant
                start <= i <= end,
                self@.wf(),
                spec_bytes_views(packets@) == self@.slice_packets(
                    start as int,
                    i as int,
                    priority,
                ),
            decreases end - i,
        {
            let ghost earlier = packets@;
            match self.send_marked_datagram(i, self.unscheduled_priority, priority) {
                Some(packet) => {
                    packets.push(packet);
                    assert(spec_bytes_views(packets@) =~= spec_bytes_views(earlier).push(
                        packet@,
                    ));
                },
                None => {},
            }
            i = i + 1;
        }
        packets
    }

    /// The unscheduled burst.
    fn burst(&self) -> (packets: Vec<Vec<u8>>)
        requires
            self@.wf(),
        ensures
            spec_bytes_views(packets@) == self@.burst(),
    {
        let end = if self.unscheduled_limit < self.datagrams.len() {
            self.unscheduled_limit
        } else {
            self.datagrams.len()
        };
        self.send_datagram_slice(0, end, self.unscheduled_priority)
    }

    /// Starts the message: takes over the unscheduled priority for the peer
    /// and the local partition vector, and returns the unscheduled burst.
    pub fn start(
        &mut self,
        unscheduled_priority: u8,
        workload: [u64; UNSCHEDULED_PRIORITY_PARTITIONS],
    ) -> (packets: Vec<Vec<u8>>)
        requires
            old(self)@.wf(),
        ensures
            final(self)@.wf(),
            final(self)@ == (MessageSenderView {
                unscheduled_priority,
                workload: workload@,
                ..old(self)@
            }),
            spec_bytes_views(packets@) == final(self)@.burst(),
    {
        self.unscheduled_priority = unscheduled_priority;
        self.workload = workload;
        self.burst()
    }

    /// What a grant asks for: the datagram it names, at the priority it
    /// assigns.
    pub fn handle_grant(&self, grant: &HomaDatagram) -> (packet: Option<Vec<u8>>)
        requires
            self@.wf(),
        ensures
            match packet {
                Some(packet) => grant.sequence_number < self@.datagrams.len() && packet@
                    == self@.packet(grant.sequence_number as int, 0, grant.priority),
                None => grant.sequence_number >= self@.datagrams.len(),
            },
    {
        self.send_datagram(grant.sequence_number as usize, grant.priority)
    }

    /// What a resend request asks for: the datagram it names, at the
    /// unscheduled priority.
    pub fn handle_resend(&self, resend: &HomaDatagram) -> (packet: Option<Vec<u8>>)
        requires
            self@.wf(),
        ensures
            match packet {
                Some(packet) => resend.sequence_number < self@.datagrams.len() && packet@
                    == self@.packet(
                    resend.sequence_number as int,
                    0,
                    self@.unscheduled_priority,
                ),
                None => resend.sequence_number >= self@.datagrams.len(),
            },
    {
        self.send_datagram(resend.sequence_number as usize, self.unscheduled_priority)
    }

    /// What a control datagram asks to be sent.
    pub fn handle_grant_or_resend(&self, datagram: &HomaDatagram) -> (packets: Vec<Vec<u8>>)
        requires
            self@.wf(),
        ensures
            spec_bytes_views(packets@) == self@.requested(datagram@),
    {
        let packet = match datagram.datagram_type {
            HomaDatagramType::Grant => self.handle_grant(datagram),
            HomaDatagramType::Resend => self.handle_resend(datagram),
            _ => None,
        };
        let mut packets: Vec<Vec<u8>> = Vec::new();
        match packet {
            Some(packet) => {
                packets.push(packet);
            },
            None => {},
        }
        assert(spec_bytes_views(packets@) =~= self@.requested(datagram@));
        packets
    }

    /// The answer to a control datagram: the peer's partition vector is
    /// passed on, and the message is either closed or served.
    fn answer(&self, datagram: &HomaDatagram) -> (step: SenderStep)
        requires
            self@.wf(),
        ensures
            spec_bytes_views(step.packets@) == self@.answer(datagram@),
            step.workload matches Some(workload) && workload@ == datagram@.workload,
            step.finished == self@.transmitted(datagram@),
    {
        if self.check_message_transmitted(datagram) {
            let packets: Vec<Vec<u8>> = Vec::new();
            assert(spec_bytes_views(packets@) =~= self@.answer(datagram@));
            SenderStep { packets, workload: Some(datagram.workload), finished: true }
        } else {
            SenderStep {
                packets: self.handle_grant_or_resend(datagram),
                workload: Some(datagram.workload),
                finished: false,
            }
        }
    }

    /// One step of the unscheduled phase, to be taken after
    /// [`Self::start`] until a control datagram arrives.
    ///
    /// A timeout sends the burst again, unless the budget of timeouts is
    /// spent: then the message is abandoned. A control datagram ends the
    /// phase: it is answered as in [`Self::send_requested_datagrams`].
    pub fn send_unscheduled_datagrams(&mut self, event: &SenderEvent) -> (step: SenderStep)
        requires
            old(self)@.wf(),
        ensures
            final(self)@.wf(),
            match event {
                SenderEvent::Timeout => if old(self)@.resend_counter == old(self)@.resends {
                    &&& final(self)@ == old(self)@
                    &&& step.finished
                    &&& step.packets@.len() == 0
                    &&& step.workload is None
                } else {
                    &&& final(self)@ == (MessageSenderView {
                        resend_counter: (old(self)@.resend_counter + 1) as usize,
                        ..old(self)@
                    })
                    &&& !step.finished
                    &&& spec_bytes_views(step.packets@) == old(self)@.burst()
                    &&& step.workload is None
                },
                SenderEvent::Control(datagram) => {
                    &&& final(self)@ == old(self)@
                    &&& step.finished == old(self)@.transmitted(datagram@)
                    &&& spec_bytes_views(step.packets@) == old(self)@.answer(datagram@)
                    &&& step.workload matches Some(workload) && workload@ == datagram@.workload
                },
            },
            step.phase_after_unscheduled() == match event {
                SenderEvent::Timeout => if old(self)@.resend_counter == old(self)@.resends {
                    SenderPhase::Done
                } else {
                    SenderPhase::Unscheduled
                },
                SenderEvent::Control(datagram) => if old(self)@.transmitted(datagram@) {
                    SenderPhase::Done
                } else {
                    SenderPhase::Requested
                },
            },
    {
        match event {
            SenderEvent::Timeout => {
                if self.resend_counter == self.resends {
                    return SenderStep { packets: Vec::new(), workload: None, finished: true };
                }
                let packets = self.burst();
                self.resend_counter = self.resend_counter + 1;
                SenderStep { packets, workload: None, finished: false }
            },
            SenderEvent::Control(datagram) => self.answer(datagram),
        }
    }

    /// One step of scheduled service, to be taken once a control datagram
    /// has arrived.
    ///
    /// A control datagram is answered: the peer's partition vector is
    /// passed on; a grant that names the number of datagrams of the message
    /// closes it; any other grant or resend request gets the datagram it
    /// names. A timeout, which here is the large one, abandons the message.
    pub fn send_requested_datagrams(&self, event: &SenderEvent) -> (step: SenderStep)
        requires
            self@.wf(),
        ensures
            match event {
                SenderEvent::Timeout => {
                    &&& step.finished
                    &&& step.packets@.len() == 0
                    &&& step.workload is None
                },
                SenderEvent::Control(datagram) => {
                    &&& step.finished == self@.transmitted(datagram@)
                    &&& spec_bytes_views(step.packets@) == self@.answer(datagram@)
                    &&& step.workload matches Some(workload) && workload@ == datagram@.workload
                },
            },
    {
        match event {
            SenderEvent::Timeout => SenderStep {
                packets: Vec::new(),
                workload: None,
                finished: true,
            },
            SenderEvent::Control(datagram) => self.answer(datagram),
        }
    }
}

} // verus!
