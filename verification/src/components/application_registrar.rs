//! The application registrar: which applications are registered.
use crate::models::registration::HomaRegistrationMessage;
use std::collections::HashSet;
use vstd::prelude::*;

verus! {

broadcast use vstd::std_specs::hash::group_hash_axioms;

/// What reaches the registrar.
#[derive(Debug, PartialEq, Eq)]
pub enum ApplicationRegistrarMessage {
    /// A new stream was accepted; these are the first bytes read from it.
    FromApplicationListener(Vec<u8>),
    /// This application shut down.
    FromApplication(u32),
}

/// The registrar's state: the ids of the registered applications.
pub struct ApplicationRegistrar {
    application_handles: HashSet<u32>,
}

impl View for ApplicationRegistrar {
    type V = Set<u32>;

    closed spec fn view(&self) -> Set<u32> {
        self.application_handles@
    }
}

impl ApplicationRegistrar {
    /// A registrar with no application registered.
    pub fn new() -> (registrar: ApplicationRegistrar)
        ensures
            registrar@ == Set::<u32>::empty(),
    {
        ApplicationRegistrar { application_handles: HashSet::new() }
    }

    /// Whether application `id` is registered.
    pub fn is_registered(&self, id: u32) -> (registered: bool)
        ensures
            registered == self@.contains(id),
    {
        self.application_handles.contains(&id)
    }

    /// Registers the application that `registration_message` names, unless
    /// an application of that id is registered already.
    pub fn create_application(&mut self, registration_message: HomaRegistrationMessage) -> (created:
        Result<(), String>)
        ensures
            match created {
                Ok(_) => !old(self)@.contains(registration_message.application_id) && final(self)@
                    == old(self)@.insert(registration_message.application_id),
                Err(reason) => old(self)@.contains(registration_message.application_id) && final(self)@ == old(self)@ && reason@
                    == "ApplicationRegistrar tried to create existing application"@,
            },
    {
        let id = registration_message.application_id;
        if self.application_handles.contains(&id) {
            return Err("ApplicationRegistrar tried to create existing application".to_owned());
        }
        self.application_handles.insert(id);
        Ok(())
    }

    /// Registers the application whose stream opened with `bytes`, and
    /// returns its id: see [`HomaRegistrationMessage::from_bytes`] and
    /// [`Self::create_application`].
    pub fn handle_from_application_listener(&mut self, bytes: &[u8]) -> (registered: Result<
        u32,
        String,
    >)
        ensures
            match registered {
                Ok(id) => HomaRegistrationMessage::spec_from_bytes(bytes@) == Some(
                    HomaRegistrationMessage { application_id: id },
                ) && !old(self)@.contains(id) && final(self)@ == old(self)@.insert(id),
                Err(reason) => final(self)@ == old(self)@ && match HomaRegistrationMessage::spec_from_bytes(
                    bytes@,
                ) {
                    None => reason@ == "HomaRegistrationMessage not deserialized"@,
                    Some(message) => old(self)@.contains(message.application_id) && reason@
                        == "ApplicationRegistrar tried to create existing application"@,
                },
            },
    {
        match HomaRegistrationMessage::from_bytes(bytes) {
            Ok(registration_message) => match self.create_application(registration_message) {
                Ok(_) => Ok(registration_message.application_id),
                Err(reason) => Err(reason),
            },
            Err(reason) => Err(reason),
        }
    }

    /// Application `id` shut down: it is registered no more.
    pub fn handle_from_application(&mut self, id: u32)
        ensures
            final(self)@ == old(self)@.remove(id),
    {
        self.application_handles.remove(&id);
    }
}

} // verus!
