use homa::components::datagram_receiver::handle_packet_payload;
use homa::models::datagram::{HomaDatagram, HomaDatagramType};

fn sample() -> HomaDatagram {
    HomaDatagram {
        datagram_type: HomaDatagramType::Data,
        message_id: 42,
        source_id: 1,
        destination_id: 2,
        sequence_number: 0,
        workload: [0; 5],
        priority: 0,
        message_length: 3,
        payload: vec![b'a', b'b', b'c'],
        checksum: 0,
    }
}

fn sample_bytes() -> Vec<u8> {
    let mut bytes = vec![0u8; 85];
    bytes[1] = 42;
    bytes[9] = 1;
    bytes[13] = 2;
    bytes[62] = 3;
    bytes[70] = 3;
    bytes[78] = b'a';
    bytes[79] = b'b';
    bytes[80] = b'c';
    bytes
}

#[test]
fn checksum_test() {
    let mut datagram = HomaDatagram::default();
    let checksum = datagram.checksum();
    assert!(checksum == datagram.checksum());
}

#[test]
fn default_datagram_is_all_zero() {
    let datagram = HomaDatagram::default();
    assert_eq!(datagram.datagram_type, HomaDatagramType::Data);
    assert_eq!(datagram.message_id, 0);
    assert_eq!(datagram.workload, [0; 5]);
    assert!(datagram.payload.is_empty());
    assert_eq!(datagram.serialize(), vec![0u8; 82]);
}

#[test]
fn checksum_is_crc32_of_zeroed_encoding() {
    let mut datagram = HomaDatagram::default();
    assert_eq!(datagram.checksum(), Ok(0x5a91_50e0));
    assert_eq!(datagram.checksum, 0x5a91_50e0);
    let mut other = sample();
    other.checksum = 77;
    assert_eq!(other.checksum(), Ok(0x21e0_25ea));
    assert_eq!(other.checksum, 0x21e0_25ea);
}

#[test]
fn checksum_of_control_datagram() {
    let mut grant = HomaDatagram {
        datagram_type: HomaDatagramType::Grant,
        message_id: 0x0102_0304_0506_0708,
        source_id: 7,
        destination_id: 9,
        sequence_number: 3,
        workload: [1400, 2800, 4200, 5600, 7000],
        priority: 8,
        message_length: 28000,
        payload: Vec::new(),
        checksum: 0,
    };
    assert_eq!(grant.checksum(), Ok(0x8a3d_4ff3));
    assert!(grant.is_intact());
}

#[test]
fn serialize_lays_fields_out_in_order() {
    assert_eq!(sample().serialize(), sample_bytes());
    let mut with_sum = sample();
    with_sum.checksum = 0x0403_0201;
    let mut expected = sample_bytes();
    expected[81] = 1;
    expected[82] = 2;
    expected[83] = 3;
    expected[84] = 4;
    assert_eq!(with_sum.serialize(), expected);
}

#[test]
fn serialize_kind_codes() {
    let mut datagram = HomaDatagram::default();
    datagram.datagram_type = HomaDatagramType::Grant;
    assert_eq!(datagram.serialize()[0], 1);
    datagram.datagram_type = HomaDatagramType::Resend;
    assert_eq!(datagram.serialize()[0], 2);
    datagram.datagram_type = HomaDatagramType::Busy;
    assert_eq!(datagram.serialize()[0], 3);
    assert_eq!(HomaDatagramType::from_code(3), Some(HomaDatagramType::Busy));
    assert_eq!(HomaDatagramType::from_code(4), None);
    assert_eq!(HomaDatagramType::Resend.code(), 2);
    assert_eq!(HomaDatagramType::default(), HomaDatagramType::Data);
}

#[test]
fn deserialize_undoes_serialize() {
    let mut datagram = sample();
    datagram.workload = [1, 2, 3, 4, u64::MAX];
    datagram.priority = 56;
    datagram.sequence_number = 0xdead_beef;
    let _ = datagram.checksum();
    let bytes = datagram.serialize();
    assert_eq!(HomaDatagram::deserialize(&bytes), Some(datagram.clone()));
    assert_eq!(datagram.clone(), datagram);
}

#[test]
fn deserialize_refuses_what_is_no_encoding() {
    let bytes = sample_bytes();
    assert_eq!(HomaDatagram::deserialize(&bytes), Some(sample()));
    assert_eq!(HomaDatagram::deserialize(&bytes[..81]), None);
    assert_eq!(HomaDatagram::deserialize(&[]), None);
    let mut longer = bytes.clone();
    longer.push(0);
    assert_eq!(HomaDatagram::deserialize(&longer), None);
    let mut unknown_kind = bytes.clone();
    unknown_kind[0] = 4;
    assert_eq!(HomaDatagram::deserialize(&unknown_kind), None);
    let mut wrong_length = bytes.clone();
    wrong_length[70] = 2;
    assert_eq!(HomaDatagram::deserialize(&wrong_length), None);
}

#[test]
fn only_the_right_checksum_is_accepted() {
    let mut datagram = sample();
    let unchecked = datagram.serialize();
    assert_eq!(handle_packet_payload(&unchecked), None);
    let _ = datagram.checksum();
    let bytes = datagram.serialize();
    assert_eq!(handle_packet_payload(&bytes), Some(datagram));
    assert_eq!(handle_packet_payload(&bytes[..40]), None);
}

#[test]
fn every_single_bit_flip_is_dropped() {
    let mut datagram = sample();
    datagram.workload = [10, 20, 30, 40, 50];
    let _ = datagram.checksum();
    let bytes = datagram.serialize();
    for at in 0..bytes.len() {
        for bit in 0..8 {
            let mut corrupted = bytes.clone();
            corrupted[at] ^= 1 << bit;
            assert_eq!(handle_packet_payload(&corrupted), None);
        }
    }
}

#[test]
fn is_intact_tells_a_stale_checksum() {
    let mut datagram = sample();
    let _ = datagram.checksum();
    assert!(datagram.is_intact());
    datagram.priority = 1;
    assert!(!datagram.is_intact());
}

#[test]
fn to_ipv4_puts_header_before_encoding() {
    let datagram = sample();
    let packet = datagram.to_ipv4([10, 0, 0, 1], [10, 0, 0, 2], 56);
    assert_eq!(packet.len(), 20 + 85);
    assert_eq!(
        &packet[..20],
        &[0x45, 56 << 2, 0, 105, 0, 0, 0, 0, 64, 146, 0, 0, 10, 0, 0, 1, 10, 0, 0, 2]
    );
    assert_eq!(&packet[20..], &sample_bytes()[..]);
}

#[test]
fn to_ipv4_length_and_dscp_bits() {
    let mut datagram = sample();
    datagram.payload = vec![7; 1400];
    let packet = datagram.to_ipv4([1, 2, 3, 4], [5, 6, 7, 8], 0xff);
    assert_eq!(packet.len(), 1502);
    assert_eq!(packet[1], 0x3f << 2);
    assert_eq!(packet[2], (1502 / 256) as u8);
    assert_eq!(packet[3], (1502 % 256) as u8);
    let zero = datagram.to_ipv4([1, 2, 3, 4], [5, 6, 7, 8], 0);
    assert_eq!(zero[1], 0);
}
