use homa::config::Config;
use homa::models::datagram::{HomaDatagram, HomaDatagramType};
use homa::models::message::{datagram_count, HomaMessage};
use homa::models::registration::HomaRegistrationMessage;

fn message(length: usize) -> HomaMessage {
    HomaMessage {
        id: 99,
        source_address: [10, 0, 0, 1],
        destination_address: [10, 0, 0, 2],
        source_id: 5,
        destination_id: 6,
        content: (0..length).map(|i| (i % 251) as u8).collect(),
    }
}

#[test]
fn datagram_count_rounds_up() {
    assert_eq!(datagram_count(0, 1400), 0);
    assert_eq!(datagram_count(1, 1400), 1);
    assert_eq!(datagram_count(1400, 1400), 1);
    assert_eq!(datagram_count(1401, 1400), 2);
    assert_eq!(datagram_count(8400, 1400), 6);
    assert_eq!(datagram_count(28000, 1400), 20);
    assert_eq!(datagram_count(u64::MAX, 1), u64::MAX);
    assert_eq!(datagram_count(u64::MAX, 2), (u64::MAX / 2) + 1);
}

#[test]
fn split_small_message_is_one_datagram() {
    let config = Config::default();
    let message = message(400);
    let datagrams = message.split(&config);
    assert_eq!(datagrams.len(), 1);
    let expected = HomaDatagram {
        datagram_type: HomaDatagramType::Data,
        message_id: 99,
        source_id: 5,
        destination_id: 6,
        sequence_number: 0,
        workload: [0; 5],
        priority: 0,
        message_length: 400,
        payload: message.content.clone(),
        checksum: 0,
    };
    assert_eq!(datagrams[0], expected);
}

#[test]
fn split_empty_message_has_no_datagram() {
    let config = Config::default();
    assert!(message(0).split(&config).is_empty());
}

#[test]
fn split_slices_content_in_order() {
    let config = Config::default();
    let message = message(3000);
    let datagrams = message.split(&config);
    assert_eq!(datagrams.len(), 3);
    assert_eq!(datagrams[0].payload, message.content[..1400].to_vec());
    assert_eq!(datagrams[1].payload, message.content[1400..2800].to_vec());
    assert_eq!(datagrams[2].payload, message.content[2800..].to_vec());
    for (i, datagram) in datagrams.iter().enumerate() {
        assert_eq!(datagram.sequence_number, i as u32);
        assert_eq!(datagram.message_length, 3000);
        assert_eq!(datagram.message_id, 99);
        assert_eq!(datagram.datagram_type, HomaDatagramType::Data);
    }
}

#[test]
fn split_exact_multiple() {
    let config = Config::default();
    let datagrams = message(6 * 1400).split(&config);
    assert_eq!(datagrams.len(), 6);
    assert!(datagrams.iter().all(|d| d.payload.len() == 1400));
}

#[test]
fn split_with_other_payload_length() {
    let mut config = Config::default();
    config.DATAGRAM_PAYLOAD_LENGTH = 7;
    let message = message(20);
    let datagrams = message.split(&config);
    assert_eq!(datagrams.len(), 3);
    assert_eq!(datagrams[2].payload.len(), 6);
    let joined: Vec<u8> = datagrams.iter().flat_map(|d| d.payload.clone()).collect();
    assert_eq!(joined, message.content);
}

#[test]
fn frame_prefixes_length() {
    assert_eq!(HomaMessage::frame(&[]), vec![0u8; 8]);
    assert_eq!(HomaMessage::frame(&[9, 8, 7]), vec![3, 0, 0, 0, 0, 0, 0, 0, 9, 8, 7]);
    let long = vec![1u8; 300];
    let framed = HomaMessage::frame(&long);
    assert_eq!(&framed[..8], &[44, 1, 0, 0, 0, 0, 0, 0]);
    assert_eq!(framed.len(), 308);
}

#[test]
fn frame_length_checks_maximum() {
    let config = Config::default();
    assert_eq!(HomaMessage::frame_length(&[3, 0, 0, 0, 0, 0, 0, 0], &config), Ok(3));
    assert_eq!(
        HomaMessage::frame_length(&524_288_000u64.to_le_bytes(), &config),
        Ok(524_288_000)
    );
    assert_eq!(
        HomaMessage::frame_length(&524_288_001u64.to_le_bytes(), &config),
        Err("message too large".to_string())
    );
}

#[test]
fn registration_is_four_little_endian_bytes() {
    assert_eq!(
        HomaRegistrationMessage::from_bytes(&[1, 2, 0, 0]),
        Ok(HomaRegistrationMessage { application_id: 513 })
    );
    assert_eq!(
        HomaRegistrationMessage::from_bytes(&[1, 2, 0]),
        Err("HomaRegistrationMessage not deserialized".to_string())
    );
    assert_eq!(
        HomaRegistrationMessage::from_bytes(&[1, 2, 0, 0, 0]),
        Err("HomaRegistrationMessage not deserialized".to_string())
    );
    assert_eq!(
        HomaRegistrationMessage { application_id: 0x0a0b_0c0d }.to_bytes(),
        vec![0x0d, 0x0c, 0x0b, 0x0a]
    );
}

#[test]
fn config_defaults_and_validity() {
    let config = Config::default();
    assert_eq!(config.SOCKET_PATH, "/tmp/homa.sock");
    assert_eq!(config.MESSAGE_MAX_LENGTH, 524_288_000);
    assert_eq!(config.DATAGRAM_PAYLOAD_LENGTH, 1400);
    assert_eq!(config.UNSCHEDULED_DATAGRAM_LIMIT, 6);
    assert_eq!(config.TIMEOUT, 15);
    assert_eq!(config.LARGE_TIMEOUT, 10000);
    assert_eq!(config.RESENDS, 5);
    assert_eq!(config.LARGE_RESENDS, 20);
    assert!(config.is_valid());
    assert_eq!(config.rtt_bytes(), 8400);
    let mut bad = Config::default();
    bad.DATAGRAM_PAYLOAD_LENGTH = 0;
    assert!(!bad.is_valid());
    bad.DATAGRAM_PAYLOAD_LENGTH = 1401;
    assert!(!bad.is_valid());
    bad.DATAGRAM_PAYLOAD_LENGTH = 1400;
    bad.UNSCHEDULED_DATAGRAM_LIMIT = usize::MAX;
    assert_eq!(bad.is_valid(), (usize::MAX as u128) * 1400 <= u64::MAX as u128);
}
