//! The application message and its division into data datagrams.
use crate::config::Config;
use crate::models::datagram::{HomaDatagram, HomaDatagramType, HomaDatagramView};
use vstd::bytes::*;
use vstd::prelude::*;
use vstd::slice::{slice_subrange, slice_to_vec};

verus! {

/// One application message.
#[derive(Debug, PartialEq, Eq)]
pub struct HomaMessage {
    /// Assigned when the application submits the message.
    pub id: u64,
    pub source_address: [u8; 4],
    pub destination_address: [u8; 4],
    pub source_id: u32,
    pub destination_id: u32,
    pub content: Vec<u8>,
}

/// A message as a mathematical value.
pub struct HomaMessageView {
    pub id: u64,
    pub source_address: Seq<u8>,
    pub destination_address: Seq<u8>,
    pub source_id: u32,
    pub destination_id: u32,
    pub content: Seq<u8>,
}

impl View for HomaMessage {
    type V = HomaMessageView;

    open spec fn view(&self) -> HomaMessageView {
        HomaMessageView {
            id: self.id,
            source_address: self.source_address@,
            destination_address: self.destination_address@,
            source_id: self.source_id,
            destination_id: self.destination_id,
            content: self.content@,
        }
    }
}

/// Bytes of the length prefix of a frame on the application's stream.
pub const FRAME_PREFIX_LENGTH: usize = 8;

/// A frame on the application's stream: the length of the body as eight
/// little-endian bytes, then the body.
pub open spec fn spec_frame(body: Seq<u8>) -> Seq<u8> {
    spec_u64_to_le_bytes(body.len() as u64) + body
}

/// Number of datagrams that carry `length` bytes at `payload_length` bytes
/// each: the quotient rounded up.
pub open spec fn spec_datagram_count(length: int, payload_length: int) -> int {
    (length + payload_length - 1) / payload_length
}

/// Where the payload of datagram `index` ends within the content.
pub open spec fn spec_slice_end(length: int, payload_length: int, index: int) -> int {
    if (index + 1) * payload_length < length {
        (index + 1) * payload_length
    } else {
        length
    }
}

/// Datagram `index` of a message: a data datagram that names the message and
/// its length and carries the `index`-th slice of the content.
pub open spec fn spec_split_datagram(
    message: HomaMessageView,
    payload_length: int,
    index: int,
) -> HomaDatagramView {
    HomaDatagramView {
        datagram_type: HomaDatagramType::Data,
        message_id: message.id,
        source_id: message.source_id,
        destination_id: message.destination_id,
        sequence_number: index as u32,
        message_length: message.content.len() as u64,
        payload: message.content.subrange(
            index * payload_length,
            spec_slice_end(message.content.len() as int, payload_length, index),
        ),
        ..HomaDatagramView::zero()
    }
}

/// The datagrams of a message, in sequence order.
pub open spec fn spec_split(message: HomaMessageView, payload_length: int) -> Seq<
    HomaDatagramView,
> {
    Seq::new(
        spec_datagram_count(message.content.len() as int, payload_length) as nat,
        |index: int| spec_split_datagram(message, payload_length, index),
    )
}

/// Datagrams as mathematical values.
pub open spec fn spec_views(datagrams: Seq<HomaDatagram>) -> Seq<HomaDatagramView> {
    datagrams.map_values(|datagram: HomaDatagram| datagram@)
}

/// The payloads of `datagrams` laid end to end.
pub open spec fn spec_concat_payloads(datagrams: Seq<HomaDatagramView>) -> Seq<u8>
    decreases datagrams.len(),
{
    if datagrams.len() == 0 {
        Seq::empty()
    } else {
        spec_concat_payloads(datagrams.drop_last()) + datagrams.last().payload
    }
}

/// The rounded-up quotient is the least count whose slices cover the length.
pub proof fn lemma_datagram_count(length: int, payload_length: int)
    requires
        0 <= length,
        0 < payload_length,
    ensures
        0 <= spec_datagram_count(length, payload_length),
        length <= spec_datagram_count(length, payload_length) * payload_length,
        (spec_datagram_count(length, payload_length) - 1) * payload_length < length || length == 0,
        length == 0 ==> spec_datagram_count(length, payload_length) == 0,
        spec_datagram_count(length, payload_length) == length / payload_length + (if length
            % payload_length == 0 {
            0int
        } else {
            1int
        }),
        spec_datagram_count(length, payload_length) <= length,
{
    let c = spec_datagram_count(length, payload_length);
    let x = length + payload_length - 1;
    assert(x == payload_length * (x / payload_length) + x % payload_length && 0 <= x
        % payload_length < payload_length) by (nonlinear_arith)
        requires
            0 < payload_length,
            0 <= x,
    ;
    assert(length == payload_length * (length / payload_length) + length % payload_length && 0
        <= length % payload_length < payload_length) by (nonlinear_arith)
        requires
            0 < payload_length,
            0 <= length,
    ;
    let q = length / payload_length;
    let r = length % payload_length;
    assert(c * payload_length == payload_length * c) by (nonlinear_arith);
    assert((c - 1) * payload_length == payload_length * c - payload_length) by (nonlinear_arith);
    if r == 0 {
        assert(c == q) by (nonlinear_arith)
            requires
                0 < payload_length,
                x == payload_length * c + x % payload_length,
                0 <= x % payload_length < payload_length,
                x == payload_length * q + payload_length - 1,
        ;
    } else {
        assert(c == q + 1) by (nonlinear_arith)
            requires
                0 < payload_length,
                x == payload_length * c + x % payload_length,
                0 <= x % payload_length < payload_length,
                x == payload_length * q + r + payload_length - 1,
                0 < r < payload_length,
        ;
        assert(payload_length * (q + 1) == payload_length * q + payload_length)
            by (nonlinear_arith);
    }
    assert(c <= length) by (nonlinear_arith)
        requires
            0 < payload_length,
            0 <= q,
            length == payload_length * q + r,
            0 <= r,
            c == q + (if r == 0 {
                0int
            } else {
                1int
            }),
    ;
}

/// Slice `index` of a message lies within the content and is not empty.
pub proof fn lemma_slice_bounds(length: int, payload_length: int, index: int)
    requires
        0 < payload_length,
        0 <= index < spec_datagram_count(length, payload_length),
        0 <= length,
    ensures
        0 <= index * payload_length < spec_slice_end(length, payload_length, index) <= length,
        spec_slice_end(length, payload_length, index) - index * payload_length <= payload_length,
        index + 1 < spec_datagram_count(length, payload_length) ==> spec_slice_end(
            length,
            payload_length,
            index,
        ) == (index + 1) * payload_length,
        index + 1 == spec_datagram_count(length, payload_length) ==> spec_slice_end(
            length,
            payload_length,
            index,
        ) == length,
{
    lemma_datagram_count(length, payload_length);
    let c = spec_datagram_count(length, payload_length);
    assert(index * payload_length <= (c - 1) * payload_length) by (nonlinear_arith)
        requires
            index <= c - 1,
            0 < payload_length,
    ;
    assert(0 <= index * payload_length) by (nonlinear_arith)
        requires
            0 <= index,
            0 < payload_length,
    ;
    assert((index + 1) * payload_length == index * payload_length + payload_length)
        by (nonlinear_arith);
    if index + 1 < c {
        assert((index + 1) * payload_length <= (c - 1) * payload_length) by (nonlinear_arith)
            requires
                index + 1 <= c - 1,
                0 < payload_length,
        ;
    } else {
        assert((index + 1) * payload_length == c * payload_length);
    }
}

/// The first `count` slices of a message, laid end to end, are the content up
/// to the end of the last of them.
pub proof fn lemma_concat_prefix(message: HomaMessageView, payload_length: int, count: int)
    requires
        0 < payload_length,
        0 <= count <= spec_datagram_count(message.content.len() as int, payload_length),
    ensures
        spec_concat_payloads(spec_split(message, payload_length).take(count))
            == message.content.subrange(
            0,
            if count == 0 {
                0
            } else {
                spec_slice_end(message.content.len() as int, payload_length, count - 1)
            },
        ),
    decreases count,
{
    let all = spec_split(message, payload_length);
    let length = message.content.len() as int;
    if count == 0 {
        assert(spec_concat_payloads(all.take(0)) =~= message.content.subrange(0, 0));
    } else {
        lemma_concat_prefix(message, payload_length, count - 1);
        lemma_slice_bounds(length, payload_length, count - 1);
        if count > 1 {
            lemma_slice_bounds(length, payload_length, count - 2);
        }
        assert(all.take(count).drop_last() =~= all.take(count - 1));
        assert(all.take(count).last() == spec_split_datagram(message, payload_length, count - 1));
        assert(spec_concat_payloads(all.take(count)) =~= message.content.subrange(
            0,
            spec_slice_end(length, payload_length, count - 1),
        ));
    }
}

/// The datagrams of a message, laid end to end in sequence order, are its
/// content.
pub proof fn lemma_concat_split(message: HomaMessageView, payload_length: int)
    requires
        0 < payload_length,
    ensures
        spec_concat_payloads(spec_split(message, payload_length)) == message.content,
{
    let all = spec_split(message, payload_length);
    let length = message.content.len() as int;
    let count = spec_datagram_count(length, payload_length);
    lemma_datagram_count(length, payload_length);
    lemma_concat_prefix(message, payload_length, count);
    assert(all.take(count) =~= all);
    if count > 0 {
        lemma_slice_bounds(length, payload_length, count - 1);
    }
    assert(message.content.subrange(0, length) =~= message.content);
}

/// Number of datagrams that carry `length` bytes at `payload_length` bytes
/// each.
pub fn datagram_count(length: u64, payload_length: u16) -> (count: u64)
    requires
        0 < payload_length,
    ensures
        count == spec_datagram_count(length as int, payload_length as int),
{
    proof {
        lemma_datagram_count(length as int, payload_length as int);
    }
    let whole = length / (payload_length as u64);
    if length % (payload_length as u64) == 0 {
        whole
    } else {
        whole + 1
    }
}

impl HomaMessage {
    /// The length of the body that follows the prefix `size_buffer` of a
    /// frame, or the reason to refuse the frame: a body longer than
    /// `MESSAGE_MAX_LENGTH`.
    pub fn frame_length(size_buffer: &[u8; FRAME_PREFIX_LENGTH], config: &Config) -> (length: Result<u64, String>)
        ensures
            match length {
                Ok(size) => size == spec_u64_from_le_bytes(size_buffer@) && size
                    <= config.MESSAGE_MAX_LENGTH,
                Err(reason) => spec_u64_from_le_bytes(size_buffer@) > config.MESSAGE_MAX_LENGTH
                    && reason@ == "message too large"@,
            },
    {
        let size = u64_from_le_bytes(size_buffer.as_slice());
        if size > config.MESSAGE_MAX_LENGTH {
            return Err("message too large".to_owned());
        }
        Ok(size)
    }

    /// Frames an encoded message for the application's stream.
    pub fn frame(body: &[u8]) -> (framed: Vec<u8>)
        ensures
            framed@ == spec_frame(body@),
    {
        let mut framed = u64_to_le_bytes(body.len() as u64);
        let mut rest = slice_to_vec(body);
        framed.append(&mut rest);
        framed
    }

    /// Divides the content into data datagrams of at most
    /// `DATAGRAM_PAYLOAD_LENGTH` bytes, numbered from zero; only the last may
    /// be shorter. Workload, priority and checksum are left zero.
    pub fn split(&self, config: &Config) -> (datagrams: Vec<HomaDatagram>)
        requires
            config.wf(),
            spec_datagram_count(
                self.content.len() as int,
                config.DATAGRAM_PAYLOAD_LENGTH as int,
            ) <= u32::MAX,
        ensures
            spec_views(datagrams@) == spec_split(self@, config.DATAGRAM_PAYLOAD_LENGTH as int),
    {
        let payload_length: usize = config.DATAGRAM_PAYLOAD_LENGTH as usize;
        let length: usize = self.content.len();
        let count: u64 = datagram_count(length as u64, config.DATAGRAM_PAYLOAD_LENGTH);
        let mut datagrams: Vec<HomaDatagram> = Vec::new();
        let mut index: u64 = 0;
        while index < count
            invariant
                index <= count,
                count == spec_datagram_count(length as int, payload_length as int),
                count <= u32::MAX,
                0 < payload_length,
                payload_length == config.DATAGRAM_PAYLOAD_LENGTH,
                length == self.content.len(),
                datagrams.len() == index,
                forall|i: int|
                    0 <= i < index ==> (#[trigger] datagrams[i])@ == spec_split_datagram(
                        self@,
                        payload_length as int,
                        i,
                    ),
            decreases count - index,
        {
            proof {
                lemma_slice_bounds(length as int, payload_length as int, index as int);
            }
            let start: usize = (index as usize) * payload_length;
            let end: usize = if length - start > payload_length {
                start + payload_length
            } else {
                length
            };
            assert(end == spec_slice_end(length as int, payload_length as int, index as int))
                by (nonlinear_arith)
                requires
                    start == index * payload_length,
                    end == if length - start > payload_length {
                        start + payload_length
                    } else {
                        length as int
                    },
            ;
            let datagram = HomaDatagram {
                datagram_type: HomaDatagramType::Data,
                message_id: self.id,
                source_id: self.source_id,
                destination_id: self.destination_id,
                sequence_number: index as u32,
                workload: [0u64, 0u64, 0u64, 0u64, 0u64],
                priority: 0,
                message_length: length as u64,
                payload: slice_to_vec(slice_subrange(self.content.as_slice(), start, end)),
                checksum: 0,
            };
            assert(datagram.workload@ =~= HomaDatagramView::zero().workload);
            datagrams.push(datagram);
            index = index + 1;
        }
        assert(spec_views(datagrams@) =~= spec_split(self@, payload_length as int));
        datagrams
    }
}

} // verus!
