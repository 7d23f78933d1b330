//! What an incoming packet must satisfy before it is dispatched: it must
//! decode, and its checksum must be the one it should carry.
use crate::models::datagram::{spec_accepts, spec_deserialize, HomaDatagram};
use vstd::prelude::*;

verus! {

/// The datagram that `packet_bytes` carry, if they are acceptable; `None`
/// for bytes that encode no datagram or a datagram with a wrong checksum.
pub fn handle_packet_payload(packet_bytes: &[u8]) -> (datagram: Option<HomaDatagram>)
    ensures
        datagram is Some <==> spec_accepts(packet_bytes@),
        datagram matches Some(d) ==> spec_deserialize(packet_bytes@) == Some(d@),
{
    match HomaDatagram::deserialize(packet_bytes) {
        Some(datagram) => {
            if datagram.is_intact() {
                Some(datagram)
            } else {
                None
            }
        },
        None => None,
    }
}

} // verus!
