//! The registration an application opens its stream with.
use vstd::bytes::*;
use vstd::prelude::*;

verus! {

/// Bytes of an encoded registration.
pub const REGISTRATION_LENGTH: usize = 4;

/// The first thing an application sends: its id.
#[derive(Clone, Copy, Debug, PartialEq, Eq, Structural)]
pub struct HomaRegistrationMessage {
    pub application_id: u32,
}

impl HomaRegistrationMessage {
    /// The registration that `bytes` encode: the application id as four
    /// little-endian bytes.
    pub open spec fn spec_from_bytes(bytes: Seq<u8>) -> Option<HomaRegistrationMessage> {
        if bytes.len() == REGISTRATION_LENGTH {
            Some(HomaRegistrationMessage { application_id: spec_u32_from_le_bytes(bytes) })
        } else {
            None
        }
    }

    /// Decodes a registration; any other number of bytes than four encodes
    /// none.
    pub fn from_bytes(bytes: &[u8]) -> (registration: Result<HomaRegistrationMessage, String>)
        ensures
            match registration {
                Ok(message) => Self::spec_from_bytes(bytes@) == Some(message),
                Err(reason) => Self::spec_from_bytes(bytes@) is None && reason@
                    == "HomaRegistrationMessage not deserialized"@,
            },
    {
        if bytes.len() != REGISTRATION_LENGTH {
            return Err("HomaRegistrationMessage not deserialized".to_owned());
        }
        Ok(HomaRegistrationMessage { application_id: u32_from_le_bytes(bytes) })
    }

    /// Encodes the registration.
    pub fn to_bytes(&self) -> (bytes: Vec<u8>)
        ensures
            Self::spec_from_bytes(bytes@) == Some(*self),
            bytes@ == spec_u32_to_le_bytes(self.application_id),
    {
        proof {
            lemma_auto_spec_u32_to_from_le_bytes();
        }
        u32_to_le_bytes(self.application_id)
    }
}

} // verus!
