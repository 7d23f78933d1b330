//! The router: where an incoming datagram goes, decided from the
//! applications that are registered and the messages that are live.
use crate::components::message_sender::{spec_sender_of, MessageSender};
use crate::config::Config;
use crate::models::datagram::{HomaDatagram, HomaDatagramView};
use crate::models::message::{datagram_count, spec_datagram_count, HomaMessage};
use std::collections::HashSet;
use vstd::prelude::*;

verus! {

broadcast use vstd::std_specs::hash::group_hash_axioms;

/// Where a datagram goes.
#[derive(Clone, Copy, Debug, PartialEq, Eq)]
pub enum Route {
    /// To the live receiver of this message.
    ToMessageReceiver(u64),
    /// To the mailbox of this application.
    ToApplication(u32),
    /// To the live sender of this message.
    ToMessageSender(u64),
    /// Nowhere.
    Drop,
}

/// The router's state.
pub struct Homa {
    application_ids: HashSet<u32>,
    receiver_message_handler_channels: HashSet<u64>,
    transmitter_message_handler_channels: HashSet<u64>,
}

/// The router's state as a mathematical value.
pub struct HomaView {
    /// Ids of the registered applications.
    pub application_ids: Set<u32>,
    /// Ids of the messages that have a live receiver.
    pub receiver_message_handler_channels: Set<u64>,
    /// Ids of the messages that have a live sender.
    pub transmitter_message_handler_channels: Set<u64>,
}

impl View for Homa {
    type V = HomaView;

    closed spec fn view(&self) -> HomaView {
        HomaView {
            application_ids: self.application_ids@,
            receiver_message_handler_channels: self.receiver_message_handler_channels@,
            transmitter_message_handler_channels: self.transmitter_message_handler_channels@,
        }
    }
}

impl HomaView {
    /// Where a data datagram goes: straight to the receiver of its message
    /// if one is live, else to the mailbox of its destination application if
    /// that is registered, else nowhere.
    pub open spec fn data_route(self, datagram: HomaDatagramView) -> Route {
        if self.receiver_message_handler_channels.contains(datagram.message_id) {
            Route::ToMessageReceiver(datagram.message_id)
        } else if self.application_ids.contains(datagram.destination_id) {
            Route::ToApplication(datagram.destination_id)
        } else {
            Route::Drop
        }
    }

    /// Where a control datagram goes: to the sender of its message if one is
    /// live, else nowhere.
    pub open spec fn control_route(self, datagram: HomaDatagramView) -> Route {
        if self.transmitter_message_handler_channels.contains(datagram.message_id) {
            Route::ToMessageSender(datagram.message_id)
        } else {
            Route::Drop
        }
    }
}

impl Homa {
    /// A router that knows no application and no message.
    pub fn new() -> (homa: Homa)
        ensures
            homa@ == (HomaView {
                application_ids: Set::empty(),
                receiver_message_handler_channels: Set::empty(),
                transmitter_message_handler_channels: Set::empty(),
            }),
    {
        Homa {
            application_ids: HashSet::new(),
            receiver_message_handler_channels: HashSet::new(),
            transmitter_message_handler_channels: HashSet::new(),
        }
    }

    /// Makes application `id` known; says whether it was new.
    pub fn register_application(&mut self, id: u32) -> (new: bool)
        ensures
            new == !old(self)@.application_ids.contains(id),
            final(self)@ == (HomaView {
                application_ids: old(self)@.application_ids.insert(id),
                ..old(self)@
            }),
    {
        self.application_ids.insert(id)
    }

    /// Forgets application `id`.
    pub fn unregister_application(&mut self, id: u32)
        ensures
            final(self)@ == (HomaView {
                application_ids: old(self)@.application_ids.remove(id),
                ..old(self)@
            }),
    {
        self.application_ids.remove(&id);
    }

    /// Records that message `id` has a live receiver, or has none any more.
    pub fn receiver_message_handler(&mut self, id: u64, live: bool)
        ensures
            final(self)@ == (HomaView {
                receiver_message_handler_channels: if live {
                    old(self)@.receiver_message_handler_channels.insert(id)
                } else {
                    old(self)@.receiver_message_handler_channels.remove(id)
                },
                ..old(self)@
            }),
    {
        if live {
            self.receiver_message_handler_channels.insert(id);
        } else {
            self.receiver_message_handler_channels.remove(&id);
        }
    }

    /// Records that message `id` has a live sender.
    pub fn transmitter_message_started(&mut self, id: u64)
        ensures
            final(self)@ == (HomaView {
                transmitter_message_handler_channels: old(
                    self,
                )@.transmitter_message_handler_channels.insert(id),
                ..old(self)@
            }),
    {
        self.transmitter_message_handler_channels.insert(id);
    }

    /// Records that the sender of message `id` has ended.
    pub fn transmitter_message_ended(&mut self, id: u64)
        ensures
            final(self)@ == (HomaView {
                transmitter_message_handler_channels: old(
                    self,
                )@.transmitter_message_handler_channels.remove(id),
                ..old(self)@
            }),
    {
        self.transmitter_message_handler_channels.remove(&id);
    }

    /// Where a data datagram goes: see [`HomaView::data_route`].
    pub fn handle_incoming_data_datagram(&self, homa_datagram: &HomaDatagram) -> (route: Route)
        ensures
            route == self@.data_route(homa_datagram@),
    {
        if self.receiver_message_handler_channels.contains(&homa_datagram.message_id) {
            return Route::ToMessageReceiver(homa_datagram.message_id);
        }
        if self.application_ids.contains(&homa_datagram.destination_id) {
            return Route::ToApplication(homa_datagram.destination_id);
        }
        Route::Drop
    }

    /// Where a control datagram goes: see [`HomaView::control_route`].
    pub fn handle_incoming_control_datagram(&self, homa_datagram: &HomaDatagram) -> (route: Route)
        ensures
            route == self@.control_route(homa_datagram@),
    {
        if self.transmitter_message_handler_channels.contains(&homa_datagram.message_id) {
            Route::ToMessageSender(homa_datagram.message_id)
        } else {
            Route::Drop
        }
    }

    /// Starts the transmission of `homa_message`: gives it a sender and
    /// records it as live. Refused, with nothing changed, if a message of
    /// that id is being sent already or if the message would need more
    /// datagrams than sequence numbers can tell apart.
    pub fn transmitter_message_handler(&mut self, homa_message: &HomaMessage, config: &Config) -> (sender:
        Option<MessageSender>)
        requires
            config.wf(),
        ensures
            sender is Some <==> !old(self)@.transmitter_message_handler_channels.contains(
                homa_message.id,
            ) && spec_datagram_count(
                homa_message.content.len() as int,
                config.DATAGRAM_PAYLOAD_LENGTH as int,
            ) <= u32::MAX,
            sender is None ==> final(self)@ == old(self)@,
            sender matches Some(s) ==> {
                &&& final(self)@ == (HomaView {
                    transmitter_message_handler_channels: old(
                        self,
                    )@.transmitter_message_handler_channels.insert(homa_message.id),
                    ..old(self)@
                })
                &&& s@.wf()
                &&& s@ == spec_sender_of(homa_message@, *config)
            },
    {
        if self.transmitter_message_handler_channels.contains(&homa_message.id) {
            return None;
        }
        let count = datagram_count(
            homa_message.content.len() as u64,
            config.DATAGRAM_PAYLOAD_LENGTH,
        );
        if count > u32::MAX as u64 {
            return None;
        }
        self.transmitter_message_handler_channels.insert(homa_message.id);
        Some(MessageSender::new(homa_message, config))
    }
}

} // verus!
