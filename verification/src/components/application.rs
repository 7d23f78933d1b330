//! The application mailbox: for one registered application, which messages
//! are being received, which are being sent, and which have been delivered.
//!
//! The mailbox decides; the caller owns the tasks and performs what the
//! mailbox answers.
use crate::components::message_receiver::{spec_opened, spec_opens_message, MessageReceiver};
use crate::components::message_sender::{spec_sender_of, MessageSender};
use crate::config::Config;
use crate::models::datagram::{HomaDatagram, HomaDatagramType, HomaDatagramView};
use crate::models::message::{datagram_count, spec_datagram_count, HomaMessage, HomaMessageView};
use std::collections::HashSet;
use vstd::prelude::*;

verus! {

broadcast use vstd::std_specs::hash::group_hash_axioms;

/// What reaches the mailbox.
#[derive(Debug, PartialEq, Eq)]
pub enum ApplicationMessage {
    /// The application closed its stream.
    Shutdown,
    /// A datagram for the application arrived, with its source and
    /// destination address.
    FromDatagramReceiver(HomaDatagram, [u8; 4], [u8; 4]),
    /// The application submitted a message.
    FromApplicationReader(HomaMessage),
    /// The receiver of this message ended.
    FromMessageReceiver(u64),
    /// The sender of this message ended.
    FromMessageSender(u64),
}

/// What the mailbox answers.
#[derive(Debug, PartialEq, Eq)]
pub enum ApplicationAction {
    /// Nothing to do: the event is dropped.
    Nothing,
    /// Hand the datagram to the live receiver of its message.
    ForwardToReceiver(HomaDatagram),
    /// Run this receiver, which holds the datagram that opened its message.
    SpawnReceiver(MessageReceiver),
    /// Hand the datagram to the live sender of its message.
    ForwardToSender(HomaDatagram),
    /// Run this sender, which holds the message under its id.
    SpawnSender(MessageSender),
    /// Abort what is left of the receiver of this message.
    AbortReceiver(u64),
    /// Abort what is left of the sender of this message.
    AbortSender(u64),
    /// Abort every receiver and sender, the reader and the writer, and tell
    /// the registrar that this application is gone.
    Shutdown(u32),
}

/// The state of one mailbox.
pub struct Application {
    application_id: u32,
    /// Ids of messages whose receiver has ended: late datagrams of these are
    /// dropped.
    delivered_messages: HashSet<u64>,
    message_receivers: HashSet<u64>,
    message_senders: HashSet<u64>,
}

/// The state of one mailbox as a mathematical value.
pub struct ApplicationView {
    pub application_id: u32,
    pub delivered_messages: Set<u64>,
    pub message_receivers: Set<u64>,
    pub message_senders: Set<u64>,
}

impl View for Application {
    type V = ApplicationView;

    closed spec fn view(&self) -> ApplicationView {
        ApplicationView {
            application_id: self.application_id,
            delivered_messages: self.delivered_messages@,
            message_receivers: self.message_receivers@,
            message_senders: self.message_senders@,
        }
    }
}

impl ApplicationView {
    /// Whether sequence numbers can tell the datagrams of `message` apart.
    pub open spec fn fits(message: HomaMessageView, config: Config) -> bool {
        spec_datagram_count(
            message.content.len() as int,
            config.DATAGRAM_PAYLOAD_LENGTH as int,
        ) <= u32::MAX
    }

    /// Whether a message submitted under `id` is accepted: no sender with
    /// that id is live, and sequence numbers can tell its datagrams apart.
    pub open spec fn accepts(self, id: u64, message: HomaMessageView, config: Config) -> bool {
        !self.message_senders.contains(id) && Self::fits(message, config)
    }

    /// The state after a message was submitted under `id`: with a sender of
    /// that id if the message is accepted, else unchanged.
    pub open spec fn submitted(self, id: u64, message: HomaMessageView, config: Config) -> ApplicationView {
        if self.accepts(id, message, config) {
            ApplicationView { message_senders: self.message_senders.insert(id), ..self }
        } else {
            self
        }
    }

    /// Whether a data datagram opens a message: its message was not
    /// delivered and is not being received, and its sequence number lies
    /// within the message that it announces.
    pub open spec fn opens(self, datagram: HomaDatagramView, config: Config) -> bool {
        &&& !self.delivered_messages.contains(datagram.message_id)
        &&& !self.message_receivers.contains(datagram.message_id)
        &&& spec_opens_message(datagram, config.DATAGRAM_PAYLOAD_LENGTH as int)
    }

    /// The state after a data datagram arrived: with a receiver for its
    /// message if it opens one, else unchanged.
    pub open spec fn data(self, datagram: HomaDatagramView, config: Config) -> ApplicationView {
        if self.opens(datagram, config) {
            ApplicationView {
                message_receivers: self.message_receivers.insert(datagram.message_id),
                ..self
            }
        } else {
            self
        }
    }

    /// What a data datagram leads to: the state is `after` and the answer is
    /// `action`. The datagram is dropped if its message was delivered,
    /// forwarded if its message is being received, given a receiver if it
    /// opens its message, and dropped otherwise.
    pub open spec fn data_outcome(
        self,
        after: ApplicationView,
        action: ApplicationAction,
        datagram: HomaDatagram,
        source_address: Seq<u8>,
        destination_address: Seq<u8>,
        config: Config,
    ) -> bool {
        &&& after == self.data(datagram@, config)
        &&& self.delivered_messages.contains(datagram.message_id) ==> action
            == ApplicationAction::Nothing
        &&& !self.delivered_messages.contains(datagram.message_id)
            && self.message_receivers.contains(datagram.message_id) ==> action
            == ApplicationAction::ForwardToReceiver(datagram)
        &&& self.opens(datagram@, config) ==> (
        action matches ApplicationAction::SpawnReceiver(receiver) && receiver@.wf() && receiver@
            == spec_opened(datagram@, source_address, destination_address, config))
        &&& !self.message_receivers.contains(datagram.message_id) && !self.opens(
            datagram@,
            config,
        ) ==> action == ApplicationAction::Nothing
    }

    /// What a control datagram leads to: nothing changes, and the datagram
    /// is forwarded if its message is being sent and dropped otherwise.
    pub open spec fn control_outcome(
        self,
        after: ApplicationView,
        action: ApplicationAction,
        datagram: HomaDatagram,
    ) -> bool {
        &&& after == self
        &&& action == if self.message_senders.contains(datagram.message_id) {
            ApplicationAction::ForwardToSender(datagram)
        } else {
            ApplicationAction::Nothing
        }
    }

    /// What a submitted message leads to, whatever id was drawn for it: it
    /// is refused and nothing changes, or it is accepted under an id that no
    /// live sender had and gets a sender. It is refused only if its
    /// datagrams cannot be numbered or the id drawn is that of a live
    /// sender: with no sender live, a message that can be numbered is always
    /// accepted.
    pub open spec fn submission_outcome(
        self,
        after: ApplicationView,
        action: ApplicationAction,
        message: HomaMessageView,
        config: Config,
    ) -> bool {
        &&& action == ApplicationAction::Nothing ==> after == self
        &&& action == ApplicationAction::Nothing ==> !Self::fits(message, config) || exists|
            id: u64,
        | #[trigger] self.message_senders.contains(id)
        &&& action != ApplicationAction::Nothing ==> (
        action matches ApplicationAction::SpawnSender(sender) && self.accepts(
            sender@.message_id,
            message,
            config,
        ) && after == self.submitted(sender@.message_id, message, config) && sender@.wf()
            && sender@ == spec_sender_of(
            HomaMessageView { id: sender@.message_id, ..message },
            config,
        ))
    }

    /// The state after the receiver of message `id` ended.
    pub open spec fn receiver_ended(self, id: u64) -> ApplicationView {
        ApplicationView {
            delivered_messages: self.delivered_messages.insert(id),
            message_receivers: self.message_receivers.remove(id),
            ..self
        }
    }

    /// The state after the sender of message `id` ended.
    pub open spec fn sender_ended(self, id: u64) -> ApplicationView {
        ApplicationView { message_senders: self.message_senders.remove(id), ..self }
    }

    /// The state after shutdown: nothing live, the record of deliveries kept.
    pub open spec fn shut_down(self) -> ApplicationView {
        ApplicationView {
            message_receivers: Set::empty(),
            message_senders: Set::empty(),
            ..self
        }
    }
}

/// No message is delivered twice: once the receiver of a message has ended,
/// the message is on record and has no receiver; nothing that happens later
/// takes it off the record; and while it is on record, no data datagram of
/// it opens a receiver again.
pub proof fn lemma_no_second_delivery(
    state: ApplicationView,
    id: u64,
    datagram: HomaDatagramView,
    message: HomaMessageView,
    config: Config,
)
    ensures
        state.receiver_ended(id).delivered_messages.contains(id),
        !state.receiver_ended(id).message_receivers.contains(id),
        state.delivered_messages.subset_of(state.data(datagram, config).delivered_messages),
        state.delivered_messages.subset_of(state.submitted(id, message, config).delivered_messages),
        state.delivered_messages.subset_of(state.receiver_ended(id).delivered_messages),
        state.delivered_messages.subset_of(state.sender_ended(id).delivered_messages),
        state.delivered_messages.subset_of(state.shut_down().delivered_messages),
        state.delivered_messages.contains(datagram.message_id) ==> !state.opens(datagram, config)
            && state.data(datagram, config) == state,
{
}

/// Draws a message id with `rand::random`.
///
/// Trusted: nothing is claimed of the id.
#[verifier::external_body]
fn random_message_id() -> (id: u64) {
    rand::random()
}

impl Application {
    /// The mailbox of application `id`, with nothing live and nothing
    /// delivered.
    pub fn new(id: u32) -> (application: Application)
        ensures
            application@ == (ApplicationView {
                application_id: id,
                delivered_messages: Set::empty(),
                message_receivers: Set::empty(),
                message_senders: Set::empty(),
            }),
    {
        Application {
            application_id: id,
            delivered_messages: HashSet::new(),
            message_receivers: HashSet::new(),
            message_senders: HashSet::new(),
        }
    }

    /// Id of the application.
    pub fn application_id(&self) -> (id: u32)
        ensures
            id == self@.application_id,
    {
        self.application_id
    }

    /// Whether a receiver of message `id` is live.
    pub fn has_receiver(&self, id: u64) -> (live: bool)
        ensures
            live == self@.message_receivers.contains(id),
    {
        self.message_receivers.contains(&id)
    }

    /// Whether a sender of message `id` is live.
    pub fn has_sender(&self, id: u64) -> (live: bool)
        ensures
            live == self@.message_senders.contains(id),
    {
        self.message_senders.contains(&id)
    }

    /// Whether message `id` was delivered, or given up, before.
    pub fn was_delivered(&self, id: u64) -> (delivered: bool)
        ensures
            delivered == self@.delivered_messages.contains(id),
    {
        self.delivered_messages.contains(&id)
    }

    /// A data datagram: dropped if its message was delivered, forwarded if
    /// its message is being received; else it is the first seen of its
    /// message and gets a receiver, or is dropped if it cannot be a datagram
    /// of its own message.
    pub fn handle_data_datagram(
        &mut self,
        datagram: HomaDatagram,
        source_address: [u8; 4],
        destination_address: [u8; 4],
        config: &Config,
    ) -> (action: ApplicationAction)
        requires
            config.wf(),
        ensures
            old(self)@.data_outcome(
                final(self)@,
                action,
                datagram,
                source_address@,
                destination_address@,
                *config,
            ),
    {
        let message_id = datagram.message_id;
        if self.delivered_messages.contains(&message_id) {
            return ApplicationAction::Nothing;
        }
        if self.message_receivers.contains(&message_id) {
            return ApplicationAction::ForwardToReceiver(datagram);
        }
        match MessageReceiver::new(datagram, source_address, destination_address, config) {
            Some(receiver) => {
                self.message_receivers.insert(message_id);
                ApplicationAction::SpawnReceiver(receiver)
            },
            None => ApplicationAction::Nothing,
        }
    }

    /// A control datagram: forwarded if its message is being sent, dropped
    /// otherwise.
    pub fn handle_control_datagram(&self, datagram: HomaDatagram) -> (action: ApplicationAction)
        ensures
            self@.control_outcome(self@, action, datagram),
    {
        if self.message_senders.contains(&datagram.message_id) {
            ApplicationAction::ForwardToSender(datagram)
        } else {
            ApplicationAction::Nothing
        }
    }

    /// A datagram from the network: data goes to
    /// [`Self::handle_data_datagram`], every other kind to
    /// [`Self::handle_control_datagram`].
    pub fn handle_from_datagram_receiver(
        &mut self,
        datagram: HomaDatagram,
        source_address: [u8; 4],
        destination_address: [u8; 4],
        config: &Config,
    ) -> (action: ApplicationAction)
        requires
            config.wf(),
        ensures
            datagram.datagram_type == HomaDatagramType::Data ==> old(self)@.data_outcome(
                final(self)@,
                action,
                datagram,
                source_address@,
                destination_address@,
                *config,
            ),
            datagram.datagram_type != HomaDatagramType::Data ==> old(self)@.control_outcome(
                final(self)@,
                action,
                datagram,
            ),
    {
        match datagram.datagram_type {
            HomaDatagramType::Data => self.handle_data_datagram(
                datagram,
                source_address,
                destination_address,
                config,
            ),
            _ => self.handle_control_datagram(datagram),
        }
    }

    /// A submitted message under the id `id`: given the id and a sender if
    /// it is accepted, refused otherwise.
    pub fn accept_message(&mut self, message: HomaMessage, id: u64, config: &Config) -> (action:
        ApplicationAction)
        requires
            config.wf(),
        ensures
            final(self)@ == old(self)@.submitted(id, message@, *config),
            !old(self)@.accepts(id, message@, *config) ==> action == ApplicationAction::Nothing,
            old(self)@.accepts(id, message@, *config) ==> (
            action matches ApplicationAction::SpawnSender(sender) && sender@.wf() && sender@
                == spec_sender_of(HomaMessageView { id, ..message@ }, *config)),
    {
        if self.message_senders.contains(&id) {
            return ApplicationAction::Nothing;
        }
        let count = datagram_count(message.content.len() as u64, config.DATAGRAM_PAYLOAD_LENGTH);
        if count > u32::MAX as u64 {
            return ApplicationAction::Nothing;
        }
        self.message_senders.insert(id);
        let mut message = message;
        message.id = id;
        ApplicationAction::SpawnSender(MessageSender::new(&message, config))
    }

    /// A submitted message: it is given a random id and accepted under it,
    /// see [`Self::accept_message`]. Whatever id is drawn, the message either
    /// gets a sender under an id that no live sender had, or is refused and
    /// nothing changes; and it is refused only if its datagrams cannot be
    /// numbered or the id drawn belongs to a live sender.
    pub fn handle_from_application_reader(&mut self, message: HomaMessage, config: &Config) -> (action:
        ApplicationAction)
        requires
            config.wf(),
        ensures
            old(self)@.submission_outcome(final(self)@, action, message@, *config),
    {
        let ghost before = self@;
        let ghost submitted = message@;
        let id = random_message_id();
        let action = self.accept_message(message, id, config);
        proof {
            if action == ApplicationAction::Nothing && ApplicationView::fits(submitted, *config) {
                assert(before.message_senders.contains(id));
            }
        }
        action
    }

    /// The receiver of message `id` ended: the message counts as delivered
    /// from now on, and what is left of the receiver is aborted.
    pub fn handle_from_message_receiver(&mut self, id: u64) -> (action: ApplicationAction)
        ensures
            final(self)@ == old(self)@.receiver_ended(id),
            action == ApplicationAction::AbortReceiver(id),
    {
        self.delivered_messages.insert(id);
        self.message_receivers.remove(&id);
        ApplicationAction::AbortReceiver(id)
    }

    /// The sender of message `id` ended: what is left of it is aborted.
    pub fn handle_from_message_sender(&mut self, id: u64) -> (action: ApplicationAction)
        ensures
            final(self)@ == old(self)@.sender_ended(id),
            action == ApplicationAction::AbortSender(id),
    {
        self.message_senders.remove(&id);
        ApplicationAction::AbortSender(id)
    }

    /// The application is gone: nothing stays live.
    pub fn handle_shutdown(&mut self) -> (action: ApplicationAction)
        ensures
            final(self)@ == old(self)@.shut_down(),
            action == ApplicationAction::Shutdown(old(self)@.application_id),
    {
        self.message_receivers.clear();
        self.message_senders.clear();
        ApplicationAction::Shutdown(self.application_id)
    }

    /// Any event: see the handler of its kind. No event ever takes a
    /// message out of the record of deliveries, and a data datagram of a
    /// message in that record is always dropped.
    pub fn handle_application_message(
        &mut self,
        application_message: ApplicationMessage,
        config: &Config,
    ) -> (action: ApplicationAction)
        requires
            config.wf(),
        ensures
            old(self)@.delivered_messages.subset_of(final(self)@.delivered_messages),
            final(self)@.application_id == old(self)@.application_id,
            match application_message {
                ApplicationMessage::Shutdown => final(self)@ == old(self)@.shut_down() && action
                    == ApplicationAction::Shutdown(old(self)@.application_id),
                ApplicationMessage::FromDatagramReceiver(datagram, source, destination) => {
                    &&& datagram.datagram_type == HomaDatagramType::Data ==> old(
                        self,
                    )@.data_outcome(final(self)@, action, datagram, source@, destination@, *config)
                    &&& datagram.datagram_type != HomaDatagramType::Data ==> old(
                        self,
                    )@.control_outcome(final(self)@, action, datagram)
                },
                ApplicationMessage::FromApplicationReader(message) => old(
                    self,
                )@.submission_outcome(final(self)@, action, message@, *config),
                ApplicationMessage::FromMessageReceiver(id) => final(self)@ == old(
                    self,
                )@.receiver_ended(id) && action == ApplicationAction::AbortReceiver(id),
                ApplicationMessage::FromMessageSender(id) => final(self)@ == old(
                    self,
                )@.sender_ended(id) && action == ApplicationAction::AbortSender(id),
            },
    {
        match application_message {
            ApplicationMessage::Shutdown => self.handle_shutdown(),
            ApplicationMessage::FromDatagramReceiver(
                datagram,
                source_address,
                destination_address,
            ) => self.handle_from_datagram_receiver(
                datagram,
                source_address,
                destination_address,
                config,
            ),
            ApplicationMessage::FromApplicationReader(message) => {
                self.handle_from_application_reader(message, config)
            },
            ApplicationMessage::FromMessageReceiver(message_id) => {
                self.handle_from_message_receiver(message_id)
            },
            ApplicationMessage::FromMessageSender(id) => self.handle_from_message_sender(id),
        }
    }
}

} // verus!
