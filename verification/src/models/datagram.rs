//! The datagram, its wire encoding, its checksum and its IPv4 framing.
use crate::config::UNSCHEDULED_PRIORITY_PARTITIONS;
use crate::crc::{crc32, spec_crc32};
use vstd::bytes::*;
use vstd::prelude::*;
use vstd::slice::{slice_subrange, slice_to_vec};

verus! {

/// Bytes of an encoded datagram besides its payload.
pub const DATAGRAM_OVERHEAD: usize = 82;

/// Bytes of the IPv4 header put in front of every datagram.
pub const IPV4_HEADER_LENGTH: usize = 20;

/// IP protocol number of the transport.
pub const HOMA_PROTOCOL: u8 = 146;

/// Hop limit of every emitted packet.
pub const IPV4_TTL: u8 = 64;

/// Largest payload whose framed packet still fits the 16-bit IPv4 length.
pub const MAXIMUM_FRAMED_PAYLOAD: usize = 65433;

/// What a datagram is for.
#[derive(Clone, Copy, Debug, PartialEq, Eq, Structural)]
pub enum HomaDatagramType {
    /// Carries a slice of message content.
    Data,
    /// Names the next sequence index to send, and the priority to send it at.
    Grant,
    /// Asks for one sequence index again.
    Resend,
    /// Reserved.
    Busy,
}

impl HomaDatagramType {
    /// The byte that stands for this kind on the wire.
    pub open spec fn spec_code(self) -> u8 {
        match self {
            HomaDatagramType::Data => 0,
            HomaDatagramType::Grant => 1,
            HomaDatagramType::Resend => 2,
            HomaDatagramType::Busy => 3,
        }
    }

    /// The kind a wire byte stands for, if any.
    pub open spec fn spec_from_code(code: u8) -> Option<HomaDatagramType> {
        if code == 0 {
            Some(HomaDatagramType::Data)
        } else if code == 1 {
            Some(HomaDatagramType::Grant)
        } else if code == 2 {
            Some(HomaDatagramType::Resend)
        } else if code == 3 {
            Some(HomaDatagramType::Busy)
        } else {
            None
        }
    }

    /// The byte that stands for this kind on the wire.
    pub fn code(self) -> (code: u8)
        ensures
            code == self.spec_code(),
    {
        match self {
            HomaDatagramType::Data => 0,
            HomaDatagramType::Grant => 1,
            HomaDatagramType::Resend => 2,
            HomaDatagramType::Busy => 3,
        }
    }

    /// The kind a wire byte stands for, if any.
    pub fn from_code(code: u8) -> (kind: Option<HomaDatagramType>)
        ensures
            kind == Self::spec_from_code(code),
    {
        if code == 0 {
            Some(HomaDatagramType::Data)
        } else if code == 1 {
            Some(HomaDatagramType::Grant)
        } else if code == 2 {
            Some(HomaDatagramType::Resend)
        } else if code == 3 {
            Some(HomaDatagramType::Busy)
        } else {
            None
        }
    }
}

impl Default for HomaDatagramType {
    fn default() -> (kind: HomaDatagramType)
        ensures
            kind == HomaDatagramType::Data,
    {
        HomaDatagramType::Data
    }
}

/// One datagram of the transport.
#[derive(Debug, PartialEq, Eq)]
pub struct HomaDatagram {
    pub datagram_type: HomaDatagramType,
    /// Chosen by the sender of the message.
    pub message_id: u64,
    pub source_id: u32,
    pub destination_id: u32,
    /// Index of this datagram within its message, from zero.
    pub sequence_number: u32,
    /// The emitter's unscheduled partition boundaries.
    pub workload: [u64; UNSCHEDULED_PRIORITY_PARTITIONS],
    pub priority: u8,
    /// Length of the whole message in bytes.
    pub message_length: u64,
    pub payload: Vec<u8>,
    /// CRC-32 of the encoding with this field zeroed.
    pub checksum: u32,
}

/// A datagram as a mathematical value.
pub struct HomaDatagramView {
    pub datagram_type: HomaDatagramType,
    pub message_id: u64,
    pub source_id: u32,
    pub destination_id: u32,
    pub sequence_number: u32,
    pub workload: Seq<u64>,
    pub priority: u8,
    pub message_length: u64,
    pub payload: Seq<u8>,
    pub checksum: u32,
}

impl View for HomaDatagram {
    type V = HomaDatagramView;

    open spec fn view(&self) -> HomaDatagramView {
        HomaDatagramView {
            datagram_type: self.datagram_type,
            message_id: self.message_id,
            source_id: self.source_id,
            destination_id: self.destination_id,
            sequence_number: self.sequence_number,
            workload: self.workload@,
            priority: self.priority,
            message_length: self.message_length,
            payload: self.payload@,
            checksum: self.checksum,
        }
    }
}

impl HomaDatagramView {
    /// The values an encoding can carry: a full workload vector and a payload
    /// whose length fits the 64-bit prefix.
    pub open spec fn wf(self) -> bool {
        &&& self.workload.len() == UNSCHEDULED_PRIORITY_PARTITIONS
        &&& self.payload.len() <= u64::MAX
    }

    /// The same datagram with another checksum.
    pub open spec fn with_checksum(self, checksum: u32) -> HomaDatagramView {
        HomaDatagramView { checksum, ..self }
    }

    /// The datagram every field of which is zero or empty.
    pub open spec fn zero() -> HomaDatagramView {
        HomaDatagramView {
            datagram_type: HomaDatagramType::Data,
            message_id: 0,
            source_id: 0,
            destination_id: 0,
            sequence_number: 0,
            workload: seq![0u64, 0u64, 0u64, 0u64, 0u64],
            priority: 0,
            message_length: 0,
            payload: Seq::empty(),
            checksum: 0,
        }
    }
}

/// The five boundaries of a workload vector, each as eight little-endian bytes.
pub open spec fn spec_workload_bytes(workload: Seq<u64>) -> Seq<u8> {
    spec_u64_to_le_bytes(workload[0]) + spec_u64_to_le_bytes(workload[1]) + spec_u64_to_le_bytes(
        workload[2],
    ) + spec_u64_to_le_bytes(workload[3]) + spec_u64_to_le_bytes(workload[4])
}

/// The wire encoding: kind, message id, source id, destination id, sequence
/// number, workload, priority, message length, length-prefixed payload,
/// checksum; integers little-endian.
pub open spec fn spec_serialize(d: HomaDatagramView) -> Seq<u8> {
    seq![d.datagram_type.spec_code()] + spec_u64_to_le_bytes(d.message_id) + spec_u32_to_le_bytes(
        d.source_id,
    ) + spec_u32_to_le_bytes(d.destination_id) + spec_u32_to_le_bytes(d.sequence_number)
        + spec_workload_bytes(d.workload) + seq![d.priority] + spec_u64_to_le_bytes(
        d.message_length,
    ) + spec_u64_to_le_bytes(d.payload.len() as u64) + d.payload + spec_u32_to_le_bytes(d.checksum)
}

/// The little-endian 64-bit integer at `at`.
pub open spec fn spec_u64_at(bytes: Seq<u8>, at: int) -> u64 {
    spec_u64_from_le_bytes(bytes.subrange(at, at + 8))
}

/// The little-endian 32-bit integer at `at`.
pub open spec fn spec_u32_at(bytes: Seq<u8>, at: int) -> u32 {
    spec_u32_from_le_bytes(bytes.subrange(at, at + 4))
}

/// The datagram that `bytes` encodes, if they encode one: a known kind, and a
/// payload length that accounts for every byte.
pub open spec fn spec_deserialize(bytes: Seq<u8>) -> Option<HomaDatagramView> {
    if bytes.len() < DATAGRAM_OVERHEAD {
        None
    } else if bytes.len() != DATAGRAM_OVERHEAD + spec_u64_at(bytes, 70) {
        None
    } else if HomaDatagramType::spec_from_code(bytes[0]) is None {
        None
    } else {
        let n = bytes.len() - DATAGRAM_OVERHEAD;
        Some(
            HomaDatagramView {
                datagram_type: HomaDatagramType::spec_from_code(bytes[0]).unwrap(),
                message_id: spec_u64_at(bytes, 1),
                source_id: spec_u32_at(bytes, 9),
                destination_id: spec_u32_at(bytes, 13),
                sequence_number: spec_u32_at(bytes, 17),
                workload: seq![
                    spec_u64_at(bytes, 21),
                    spec_u64_at(bytes, 29),
                    spec_u64_at(bytes, 37),
                    spec_u64_at(bytes, 45),
                    spec_u64_at(bytes, 53),
                ],
                priority: bytes[61],
                message_length: spec_u64_at(bytes, 62),
                payload: bytes.subrange(78, 78 + n),
                checksum: spec_u32_at(bytes, 78 + n),
            },
        )
    }
}

/// The checksum a datagram should carry: CRC-32 of its encoding with the
/// checksum field zeroed.
pub open spec fn spec_checksum(d: HomaDatagramView) -> u32 {
    spec_crc32(spec_serialize(d.with_checksum(0)))
}

/// Whether a receiver accepts `bytes`: they decode, and the datagram
/// carries the checksum it should.
pub open spec fn spec_accepts(bytes: Seq<u8>) -> bool {
    match spec_deserialize(bytes) {
        Some(d) => d.checksum == spec_checksum(d),
        None => false,
    }
}

/// The 20-byte IPv4 header of a packet that carries `length` bytes of
/// datagram: version 4, five header words, the low six bits of `priority` as
/// DSCP, total length, TTL 64, protocol 146, then the two addresses.
pub open spec fn spec_ipv4_header(
    source_address: Seq<u8>,
    destination_address: Seq<u8>,
    priority: u8,
    length: int,
) -> Seq<u8> {
    seq![
        0x45u8,
        ((priority & 0x3f) << 2) as u8,
        (((IPV4_HEADER_LENGTH + length) / 256) % 256) as u8,
        ((IPV4_HEADER_LENGTH + length) % 256) as u8,
        0u8,
        0u8,
        0u8,
        0u8,
        IPV4_TTL,
        HOMA_PROTOCOL,
        0u8,
        0u8,
    ] + source_address + destination_address
}

impl Default for HomaDatagram {
    /// A data datagram with every field zero and no payload.
    fn default() -> (datagram: HomaDatagram)
        ensures
            datagram@ == HomaDatagramView::zero(),
    {
        let datagram = HomaDatagram {
            datagram_type: HomaDatagramType::Data,
            message_id: 0,
            source_id: 0,
            destination_id: 0,
            sequence_number: 0,
            workload: [0u64, 0u64, 0u64, 0u64, 0u64],
            priority: 0,
            message_length: 0,
            payload: Vec::new(),
            checksum: 0,
        };
        assert(datagram.workload@ =~= seq![0u64, 0u64, 0u64, 0u64, 0u64]);
        datagram
    }
}

impl Clone for HomaDatagram {
    fn clone(&self) -> (copy: HomaDatagram)
        ensures
            copy@ == self@,
    {
        HomaDatagram {
            datagram_type: self.datagram_type,
            message_id: self.message_id,
            source_id: self.source_id,
            destination_id: self.destination_id,
            sequence_number: self.sequence_number,
            workload: self.workload,
            priority: self.priority,
            message_length: self.message_length,
            payload: slice_to_vec(self.payload.as_slice()),
            checksum: self.checksum,
        }
    }
}

impl HomaDatagram {
    /// Encodes the datagram with `checksum` in place of its own.
    fn serialize_with(&self, checksum: u32) -> (bytes: Vec<u8>)
        ensures
            bytes@ == spec_serialize(self@.with_checksum(checksum)),
    {
        let mut bytes: Vec<u8> = Vec::new();
        bytes.push(self.datagram_type.code());
        let mut field = u64_to_le_bytes(self.message_id);
        bytes.append(&mut field);
        let mut field = u32_to_le_bytes(self.source_id);
        bytes.append(&mut field);
        let mut field = u32_to_le_bytes(self.destination_id);
        bytes.append(&mut field);
        let mut field = u32_to_le_bytes(self.sequence_number);
        bytes.append(&mut field);
        let mut field = u64_to_le_bytes(self.workload[0]);
        bytes.append(&mut field);
        let mut field = u64_to_le_bytes(self.workload[1]);
        bytes.append(&mut field);
        let mut field = u64_to_le_bytes(self.workload[2]);
        bytes.append(&mut field);
        let mut field = u64_to_le_bytes(self.workload[3]);
        bytes.append(&mut field);
        let mut field = u64_to_le_bytes(self.workload[4]);
        bytes.append(&mut field);
        bytes.push(self.priority);
        let mut field = u64_to_le_bytes(self.message_length);
        bytes.append(&mut field);
        let mut field = u64_to_le_bytes(self.payload.len() as u64);
        bytes.append(&mut field);
        let mut field = slice_to_vec(self.payload.as_slice());
        bytes.append(&mut field);
        let mut field = u32_to_le_bytes(checksum);
        bytes.append(&mut field);
        assert(bytes@ =~= spec_serialize(self@.with_checksum(checksum)));
        bytes
    }

    /// Encodes the datagram for the wire.
    pub fn serialize(&self) -> (bytes: Vec<u8>)
        ensures
            bytes@ == spec_serialize(self@),
    {
        self.serialize_with(self.checksum)
    }

    /// Decodes a datagram, or says that `bytes` encode none.
    pub fn deserialize(bytes: &[u8]) -> (datagram: Option<HomaDatagram>)
        ensures
            match datagram {
                Some(d) => spec_deserialize(bytes@) == Some(d@),
                None => spec_deserialize(bytes@) is None,
            },
    {
        if bytes.len() < DATAGRAM_OVERHEAD {
            return None;
        }
        let n: usize = bytes.len() - DATAGRAM_OVERHEAD;
        let declared = u64_from_le_bytes(slice_subrange(bytes, 70, 78));
        if n as u64 != declared {
            return None;
        }
        let kind = match HomaDatagramType::from_code(bytes[0]) {
            Some(kind) => kind,
            None => {
                return None;
            },
        };
        let datagram = HomaDatagram {
            datagram_type: kind,
            message_id: u64_from_le_bytes(slice_subrange(bytes, 1, 9)),
            source_id: u32_from_le_bytes(slice_subrange(bytes, 9, 13)),
            destination_id: u32_from_le_bytes(slice_subrange(bytes, 13, 17)),
            sequence_number: u32_from_le_bytes(slice_subrange(bytes, 17, 21)),
            workload: [
                u64_from_le_bytes(slice_subrange(bytes, 21, 29)),
                u64_from_le_bytes(slice_subrange(bytes, 29, 37)),
                u64_from_le_bytes(slice_subrange(bytes, 37, 45)),
                u64_from_le_bytes(slice_subrange(bytes, 45, 53)),
                u64_from_le_bytes(slice_subrange(bytes, 53, 61)),
            ],
            priority: bytes[61],
            message_length: u64_from_le_bytes(slice_subrange(bytes, 62, 70)),
            payload: slice_to_vec(slice_subrange(bytes, 78, 78 + n)),
            checksum: u32_from_le_bytes(slice_subrange(bytes, 78 + n, 82 + n)),
        };
        assert(datagram@.workload =~= spec_deserialize(bytes@).unwrap().workload);
        Some(datagram)
    }

    /// Computes the checksum of the datagram, stores it in the datagram and
    /// returns it. It never fails.
    pub fn checksum(&mut self) -> (sum: Result<u32, String>)
        ensures
            sum == Ok::<u32, String>(spec_checksum(old(self)@)),
            final(self)@ == old(self)@.with_checksum(spec_checksum(old(self)@)),
    {
        let bytes = self.serialize_with(0);
        let sum = crc32(bytes.as_slice());
        self.checksum = sum;
        Ok(sum)
    }

    /// Whether the datagram carries the checksum it should.
    pub fn is_intact(&self) -> (intact: bool)
        ensures
            intact == (self.checksum == spec_checksum(self@)),
    {
        let bytes = self.serialize_with(0);
        crc32(bytes.as_slice()) == self.checksum
    }

    /// Frames the encoded datagram as an IPv4 packet from `source_address` to
    /// `destination_address`, with `priority` as its DSCP.
    pub fn to_ipv4(
        &self,
        source_address: [u8; 4],
        destination_address: [u8; 4],
        priority: u8,
    ) -> (packet: Vec<u8>)
        requires
            self.payload.len() <= MAXIMUM_FRAMED_PAYLOAD,
        ensures
            packet@ == spec_to_ipv4(self@, source_address@, destination_address@, priority),
    {
        let mut body = self.serialize();
        proof {
            lemma_serialize_len(self@);
        }
        let total: usize = IPV4_HEADER_LENGTH + body.len();
        let dscp: u8 = (priority & 0x3f) << 2;
        let mut packet: Vec<u8> = Vec::new();
        packet.push(0x45);
        packet.push(dscp);
        packet.push(((total / 256) % 256) as u8);
        packet.push((total % 256) as u8);
        packet.push(0);
        packet.push(0);
        packet.push(0);
        packet.push(0);
        packet.push(IPV4_TTL);
        packet.push(HOMA_PROTOCOL);
        packet.push(0);
        packet.push(0);
        packet.push(source_address[0]);
        packet.push(source_address[1]);
        packet.push(source_address[2]);
        packet.push(source_address[3]);
        packet.push(destination_address[0]);
        packet.push(destination_address[1]);
        packet.push(destination_address[2]);
        packet.push(destination_address[3]);
        packet.append(&mut body);
        assert(packet@ =~= spec_ipv4_header(
            source_address@,
            destination_address@,
            priority,
            DATAGRAM_OVERHEAD + self.payload.len(),
        ) + spec_serialize(self@));
        packet
    }
}

/// The IPv4 packet that carries datagram `d` from `source_address` to
/// `destination_address` with `priority` as its DSCP.
pub open spec fn spec_to_ipv4(
    d: HomaDatagramView,
    source_address: Seq<u8>,
    destination_address: Seq<u8>,
    priority: u8,
) -> Seq<u8> {
    spec_ipv4_header(
        source_address,
        destination_address,
        priority,
        DATAGRAM_OVERHEAD + d.payload.len(),
    ) + spec_serialize(d)
}

/// The views of a sequence of byte vectors.
pub open spec fn spec_bytes_views(packets: Seq<Vec<u8>>) -> Seq<Seq<u8>> {
    packets.map_values(|packet: Vec<u8>| packet@)
}

/// Encoding has a fixed overhead on top of the payload.
pub proof fn lemma_serialize_len(d: HomaDatagramView)
    ensures
        spec_serialize(d).len() == DATAGRAM_OVERHEAD + d.payload.len(),
{
    lemma_auto_spec_u64_to_from_le_bytes();
    lemma_auto_spec_u32_to_from_le_bytes();
}

/// The kind byte reads back as the kind it was written for.
pub proof fn lemma_code_round_trip(kind: HomaDatagramType)
    ensures
        HomaDatagramType::spec_from_code(kind.spec_code()) == Some(kind),
{
}

/// Decoding undoes encoding.
pub proof fn lemma_deserialize_serialize(d: HomaDatagramView)
    requires
        d.wf(),
    ensures
        spec_deserialize(spec_serialize(d)) == Some(d),
{
    lemma_auto_spec_u64_to_from_le_bytes();
    lemma_auto_spec_u32_to_from_le_bytes();
    let s = spec_serialize(d);
    let n = d.payload.len() as int;
    assert(s.len() == DATAGRAM_OVERHEAD + n);
    assert(s[0] == d.datagram_type.spec_code());
    lemma_code_round_trip(d.datagram_type);
    assert(s.subrange(1, 9) =~= spec_u64_to_le_bytes(d.message_id));
    assert(s.subrange(9, 13) =~= spec_u32_to_le_bytes(d.source_id));
    assert(s.subrange(13, 17) =~= spec_u32_to_le_bytes(d.destination_id));
    assert(s.subrange(17, 21) =~= spec_u32_to_le_bytes(d.sequence_number));
    assert(s.subrange(21, 29) =~= spec_u64_to_le_bytes(d.workload[0]));
    assert(s.subrange(29, 37) =~= spec_u64_to_le_bytes(d.workload[1]));
    assert(s.subrange(37, 45) =~= spec_u64_to_le_bytes(d.workload[2]));
    assert(s.subrange(45, 53) =~= spec_u64_to_le_bytes(d.workload[3]));
    assert(s.subrange(53, 61) =~= spec_u64_to_le_bytes(d.workload[4]));
    assert(s[61] == d.priority);
    assert(s.subrange(62, 70) =~= spec_u64_to_le_bytes(d.message_length));
    assert(s.subrange(70, 78) =~= spec_u64_to_le_bytes(n as u64));
    assert(s.subrange(78, 78 + n) =~= d.payload);
    assert(s.subrange(78 + n, 82 + n) =~= spec_u32_to_le_bytes(d.checksum));
    let back = spec_deserialize(s).unwrap();
    assert(back.workload =~= d.workload);
}

/// Bytes that decode are the encoding of what they decode to: no datagram has
/// two encodings, and no encoding has slack.
pub proof fn lemma_serialize_deserialize(bytes: Seq<u8>)
    requires
        spec_deserialize(bytes) is Some,
    ensures
        spec_deserialize(bytes).unwrap().wf(),
        spec_serialize(spec_deserialize(bytes).unwrap()) == bytes,
{
    lemma_auto_spec_u64_to_from_le_bytes();
    lemma_auto_spec_u32_to_from_le_bytes();
    let d = spec_deserialize(bytes).unwrap();
    let n = bytes.len() - DATAGRAM_OVERHEAD;
    assert(d.payload.len() == n);
    assert(n == spec_u64_at(bytes, 70));
    assert(spec_u64_to_le_bytes(d.message_id) == bytes.subrange(1, 9));
    assert(spec_u32_to_le_bytes(d.source_id) == bytes.subrange(9, 13));
    assert(spec_u32_to_le_bytes(d.destination_id) == bytes.subrange(13, 17));
    assert(spec_u32_to_le_bytes(d.sequence_number) == bytes.subrange(17, 21));
    assert(spec_u64_to_le_bytes(d.workload[0]) == bytes.subrange(21, 29));
    assert(spec_u64_to_le_bytes(d.workload[1]) == bytes.subrange(29, 37));
    assert(spec_u64_to_le_bytes(d.workload[2]) == bytes.subrange(37, 45));
    assert(spec_u64_to_le_bytes(d.workload[3]) == bytes.subrange(45, 53));
    assert(spec_u64_to_le_bytes(d.workload[4]) == bytes.subrange(53, 61));
    assert(spec_u64_to_le_bytes(d.message_length) == bytes.subrange(62, 70));
    assert(spec_u64_to_le_bytes(d.payload.len() as u64) == bytes.subrange(70, 78));
    assert(spec_u32_to_le_bytes(d.checksum) == bytes.subrange(78 + n, 82 + n));
    assert(spec_serialize(d) =~= bytes);
}

/// Zeroing the checksum only rewrites the last four bytes of an encoding.
pub proof fn lemma_serialize_zeroed(d: HomaDatagramView)
    ensures
        spec_serialize(d.with_checksum(0)) == spec_serialize(d).subrange(
            0,
            DATAGRAM_OVERHEAD + d.payload.len() - 4,
        ) + spec_u32_to_le_bytes(0),
{
    lemma_auto_spec_u64_to_from_le_bytes();
    lemma_auto_spec_u32_to_from_le_bytes();
    assert(spec_serialize(d.with_checksum(0)) =~= spec_serialize(d).subrange(
        0,
        DATAGRAM_OVERHEAD + d.payload.len() - 4,
    ) + spec_u32_to_le_bytes(0));
}

/// Corruption is rejected: accepted bytes are no longer accepted once exactly one of
/// them has changed, be it by a single bit or by more.
pub proof fn lemma_corruption_is_rejected(wire: Seq<u8>, corrupted: Seq<u8>, at: int)
    requires
        spec_accepts(wire),
        corrupted.len() == wire.len(),
        0 <= at < wire.len(),
        corrupted[at] != wire[at],
        forall|i: int| 0 <= i < wire.len() && i != at ==> corrupted[i] == wire[i],
    ensures
        !spec_accepts(corrupted),
{
    if spec_deserialize(corrupted) is Some {
        lemma_auto_spec_u64_to_from_le_bytes();
        lemma_auto_spec_u32_to_from_le_bytes();
        let d = spec_deserialize(wire).unwrap();
        let e = spec_deserialize(corrupted).unwrap();
        lemma_serialize_deserialize(wire);
        lemma_serialize_deserialize(corrupted);
        lemma_serialize_zeroed(d);
        lemma_serialize_zeroed(e);
        let body = wire.len() - 4;
        let zd = spec_serialize(d.with_checksum(0));
        let ze = spec_serialize(e.with_checksum(0));
        assert(zd.len() == wire.len() && ze.len() == wire.len());
        if at < body {
            assert(wire.subrange(body, body + 4) =~= corrupted.subrange(body, body + 4));
            assert(d.checksum == e.checksum);
            assert(zd[at] == wire[at]);
            assert(ze[at] == corrupted[at]);
            assert forall|i: int| 0 <= i < zd.len() && i != at implies zd[i] == ze[i] by {
                if i < body {
                    assert(zd[i] == wire[i]);
                    assert(ze[i] == corrupted[i]);
                }
            }
            crate::crc::lemma_crc32_detects_byte(zd, ze, at);
        } else {
            assert(wire.subrange(0, body) =~= corrupted.subrange(0, body));
            assert(zd == ze);
            assert(spec_u32_to_le_bytes(d.checksum) == wire.subrange(body, body + 4));
            assert(spec_u32_to_le_bytes(e.checksum) == corrupted.subrange(body, body + 4));
            assert(wire.subrange(body, body + 4)[at - body] == wire[at]);
            assert(corrupted.subrange(body, body + 4)[at - body] == corrupted[at]);
            assert(d.checksum != e.checksum);
        }
    }
}

/// What is sent is accepted: a datagram that carries the checksum it should,
/// framed as a packet, is accepted once the header is taken off, and decodes
/// to the datagram that was sent.
pub proof fn lemma_sealed_packet_is_accepted(
    d: HomaDatagramView,
    source_address: Seq<u8>,
    destination_address: Seq<u8>,
    priority: u8,
)
    requires
        d.wf(),
        source_address.len() == 4,
        destination_address.len() == 4,
    ensures
        ({
            let sealed = d.with_checksum(spec_checksum(d));
            let packet = spec_to_ipv4(sealed, source_address, destination_address, priority);
            &&& packet.len() == IPV4_HEADER_LENGTH + DATAGRAM_OVERHEAD + d.payload.len()
            &&& packet.skip(IPV4_HEADER_LENGTH as int) == spec_serialize(sealed)
            &&& spec_deserialize(packet.skip(IPV4_HEADER_LENGTH as int)) == Some(sealed)
            &&& spec_accepts(packet.skip(IPV4_HEADER_LENGTH as int))
        }),
{
    let sealed = d.with_checksum(spec_checksum(d));
    let packet = spec_to_ipv4(sealed, source_address, destination_address, priority);
    lemma_serialize_len(sealed);
    assert(packet.skip(IPV4_HEADER_LENGTH as int) =~= spec_serialize(sealed));
    lemma_deserialize_serialize(sealed);
    assert(sealed.with_checksum(0) == d.with_checksum(0));
}

} // verus!
