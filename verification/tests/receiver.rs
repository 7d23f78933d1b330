use homa::components::datagram_receiver::handle_packet_payload;
use homa::components::message_receiver::{
    MessageReceiver, ReceiverEvent, ReceiverPhase, ScheduledState, ScheduledStep,
    UnscheduledState, UnscheduledStep,
};
use homa::config::Config;
use homa::models::datagram::{HomaDatagram, HomaDatagramType};
use homa::models::message::HomaMessage;

const SOURCE: [u8; 4] = [10, 0, 0, 1];
const DESTINATION: [u8; 4] = [10, 0, 0, 2];

fn message(length: usize) -> HomaMessage {
    HomaMessage {
        id: 77,
        source_address: SOURCE,
        destination_address: DESTINATION,
        source_id: 3,
        destination_id: 4,
        content: (0..length).map(|i| (i * 7 % 256) as u8).collect(),
    }
}

fn data(message: &HomaMessage) -> Vec<HomaDatagram> {
    let mut datagrams = message.split(&Config::default());
    for datagram in datagrams.iter_mut() {
        datagram.workload = [11, 22, 33, 44, 55];
    }
    datagrams
}

fn control(packet: &[u8]) -> HomaDatagram {
    assert_eq!(packet[0], 0x45);
    assert_eq!(packet[1], 56 << 2);
    assert_eq!(&packet[12..16], &DESTINATION);
    assert_eq!(&packet[16..20], &SOURCE);
    handle_packet_payload(&packet[20..]).expect("control packet is intact")
}

fn open(datagram: HomaDatagram) -> MessageReceiver {
    MessageReceiver::new(datagram, SOURCE, DESTINATION, &Config::default()).expect("opens")
}

#[test]
fn small_single_datagram_message() {
    let message = message(400);
    let datagrams = data(&message);
    assert_eq!(datagrams.len(), 1);
    let mut receiver = open(datagrams[0].clone());
    assert!(receiver.unscheduled_only());
    assert_eq!(receiver.message_id(), 77);
    assert_eq!(receiver.collected_datagrams(), 1);
    assert_eq!(receiver.expected_datagrams(), 1);
    assert_eq!(receiver.remaining_bytes(), 0);
    assert_eq!(receiver.check_message_unscheduled(), UnscheduledState::Complete);
    assert_eq!(receiver.check_message_scheduled(), ScheduledState::Complete);
    assert_eq!(receiver.put_remote_workload(), (SOURCE, [11, 22, 33, 44, 55]));
    receiver.get_local_workload([1400, 2800, 4200, 5600, 7000]);
    let (delivered, closing) = receiver.complete().expect("every datagram is in");
    assert_eq!(delivered, message);
    let grant = control(&closing);
    assert_eq!(grant.datagram_type, HomaDatagramType::Grant);
    assert_eq!(grant.sequence_number, 1);
    assert_eq!(grant.priority, 0);
    assert_eq!(grant.message_id, 77);
    assert_eq!(grant.source_id, 4);
    assert_eq!(grant.destination_id, 3);
    assert_eq!(grant.workload, [1400, 2800, 4200, 5600, 7000]);
    assert!(grant.payload.is_empty());
}

#[test]
fn medium_unscheduled_only() {
    let message = message(6 * 1400);
    let datagrams = data(&message);
    assert_eq!(datagrams.len(), 6);
    let mut receiver = open(datagrams[0].clone());
    assert!(receiver.unscheduled_only());
    assert_eq!(receiver.check_message_unscheduled(), UnscheduledState::Incomplete);
    for i in 1..5 {
        assert_eq!(
            receiver.receive_unscheduled_datagrams(ReceiverEvent::Datagram(datagrams[i].clone())),
            UnscheduledStep::Wait
        );
    }
    assert_eq!(
        receiver.receive_unscheduled_datagrams(ReceiverEvent::Datagram(datagrams[5].clone())),
        UnscheduledStep::Complete
    );
    let (delivered, closing) = receiver.complete().expect("every datagram is in");
    assert_eq!(delivered.content, message.content);
    let grant = control(&closing);
    assert_eq!(grant.sequence_number, 6);
    assert_eq!(grant.priority, 0);
}

#[test]
fn scheduled_message_no_loss() {
    let message = message(20 * 1400);
    let datagrams = data(&message);
    assert_eq!(datagrams.len(), 20);
    let mut receiver = open(datagrams[0].clone());
    assert!(!receiver.unscheduled_only());
    for i in 1..5 {
        assert_eq!(
            receiver.receive_unscheduled_datagrams(ReceiverEvent::Datagram(datagrams[i].clone())),
            UnscheduledStep::Wait
        );
    }
    assert_eq!(
        receiver.receive_unscheduled_datagrams(ReceiverEvent::Datagram(datagrams[5].clone())),
        UnscheduledStep::Complete
    );
    assert_eq!(receiver.register_priority(), (77, 14 * 1400));
    let mut granted = Vec::new();
    let first = control(&receiver.next_grant(8));
    assert_eq!(first.datagram_type, HomaDatagramType::Grant);
    assert_eq!(first.priority, 8);
    granted.push(first.sequence_number);
    for i in 6..19 {
        assert_eq!(
            receiver.receive_scheduled_datagrams(ReceiverEvent::Datagram(datagrams[i].clone())),
            ScheduledStep::Grant
        );
        let grant = control(&receiver.next_grant(0));
        assert_eq!(grant.priority, 0);
        granted.push(grant.sequence_number);
    }
    assert_eq!(
        receiver.receive_scheduled_datagrams(ReceiverEvent::Datagram(datagrams[19].clone())),
        ScheduledStep::Complete
    );
    let (delivered, closing) = receiver.complete().expect("every datagram is in");
    let closing = control(&closing);
    granted.push(closing.sequence_number);
    assert_eq!(granted, (6..=20).collect::<Vec<u32>>());
    assert_eq!(closing.priority, 0);
    assert_eq!(delivered, message);
}

#[test]
fn lossy_unscheduled() {
    let message = message(6 * 1400);
    let datagrams = data(&message);
    let mut receiver = open(datagrams[0].clone());
    receiver.get_local_workload([1, 2, 3, 4, 5]);
    for i in [2usize, 4, 5] {
        assert_eq!(
            receiver.receive_unscheduled_datagrams(ReceiverEvent::Datagram(datagrams[i].clone())),
            UnscheduledStep::Wait
        );
    }
    let step = receiver.receive_unscheduled_datagrams(ReceiverEvent::Timeout);
    let packets = match step {
        UnscheduledStep::Resend(packets) => packets,
        other => panic!("expected resends, got {:?}", other),
    };
    let resends: Vec<HomaDatagram> = packets.iter().map(|p| control(p)).collect();
    assert_eq!(resends.len(), 2);
    assert_eq!(resends[0].sequence_number, 1);
    assert_eq!(resends[1].sequence_number, 3);
    for resend in resends.iter() {
        assert_eq!(resend.datagram_type, HomaDatagramType::Resend);
        assert_eq!(resend.message_id, 77);
        assert_eq!(resend.source_id, 4);
        assert_eq!(resend.destination_id, 3);
        assert_eq!(resend.priority, 0);
        assert_eq!(resend.workload, [1, 2, 3, 4, 5]);
    }
    assert_eq!(
        receiver.receive_unscheduled_datagrams(ReceiverEvent::Datagram(datagrams[3].clone())),
        UnscheduledStep::Wait
    );
    assert_eq!(
        receiver.receive_unscheduled_datagrams(ReceiverEvent::Datagram(datagrams[1].clone())),
        UnscheduledStep::Complete
    );
    assert_eq!(receiver.build_message(), message);
}

#[test]
fn unscheduled_resend_budget() {
    let message = message(3 * 1400);
    let datagrams = data(&message);
    let mut receiver = open(datagrams[1].clone());
    for _ in 0..5 {
        match receiver.receive_unscheduled_datagrams(ReceiverEvent::Timeout) {
            UnscheduledStep::Resend(packets) => {
                let wanted: Vec<u32> = packets.iter().map(|p| control(p).sequence_number).collect();
                assert_eq!(wanted, vec![0, 2]);
            }
            other => panic!("expected resends, got {:?}", other),
        }
    }
    assert_eq!(
        receiver.receive_unscheduled_datagrams(ReceiverEvent::Timeout),
        UnscheduledStep::Incomplete
    );
    assert_eq!(
        receiver.receive_unscheduled_datagrams(ReceiverEvent::Timeout),
        UnscheduledStep::Incomplete
    );
}

#[test]
fn resends_cover_only_the_unscheduled_window() {
    let message = message(10 * 1400);
    let datagrams = data(&message);
    let receiver = open(datagrams[9].clone());
    let wanted: Vec<u32> = receiver
        .request_resend_unscheduled_datagrams()
        .iter()
        .map(|p| control(p).sequence_number)
        .collect();
    assert_eq!(wanted, vec![0, 1, 2, 3, 4, 5]);
}

#[test]
fn scheduled_grant_budget_counts_timeouts_in_a_row() {
    let message = message(9 * 1400);
    let datagrams = data(&message);
    let mut receiver = open(datagrams[0].clone());
    for i in 1..6 {
        receiver.receive_unscheduled_datagrams(ReceiverEvent::Datagram(datagrams[i].clone()));
    }
    for _ in 0..20 {
        assert_eq!(
            receiver.receive_scheduled_datagrams(ReceiverEvent::Timeout),
            ScheduledStep::Grant
        );
        assert_eq!(control(&receiver.next_grant(8)).sequence_number, 6);
    }
    assert_eq!(
        receiver.receive_scheduled_datagrams(ReceiverEvent::Datagram(datagrams[6].clone())),
        ScheduledStep::Grant
    );
    assert_eq!(control(&receiver.next_grant(8)).sequence_number, 7);
    for _ in 0..20 {
        assert_eq!(
            receiver.receive_scheduled_datagrams(ReceiverEvent::Timeout),
            ScheduledStep::Grant
        );
    }
    assert_eq!(
        receiver.receive_scheduled_datagrams(ReceiverEvent::Timeout),
        ScheduledStep::Incomplete
    );
}

#[test]
fn duplicates_and_strangers_are_ignored() {
    let message = message(3 * 1400 + 10);
    let datagrams = data(&message);
    let mut receiver = open(datagrams[0].clone());
    assert_eq!(receiver.add_datagram(datagrams[0].clone()), 4);
    assert_eq!(receiver.collected_datagrams(), 1);
    assert_eq!(receiver.remaining_bytes(), 2 * 1400 + 10);
    let mut beyond = datagrams[1].clone();
    beyond.sequence_number = 4;
    receiver.add_datagram(beyond);
    assert_eq!(receiver.collected_datagrams(), 1);
    assert_eq!(receiver.remaining_bytes(), 2 * 1400 + 10);
    receiver.add_datagram(datagrams[3].clone());
    assert_eq!(receiver.collected_datagrams(), 2);
    assert_eq!(receiver.remaining_bytes(), 2 * 1400);
    let mut again = datagrams[3].clone();
    again.payload = vec![9; 5];
    receiver.add_datagram(again);
    assert_eq!(receiver.collected_datagrams(), 2);
    assert_eq!(receiver.remaining_bytes(), 2 * 1400);
}

#[test]
fn a_free_slot_takes_a_payload_of_any_length() {
    let message = message(3 * 1400 + 10);
    let datagrams = data(&message);
    let mut receiver = open(datagrams[0].clone());
    let mut short = datagrams[1].clone();
    short.payload.pop();
    assert_eq!(receiver.add_datagram(short), 4);
    assert_eq!(receiver.collected_datagrams(), 2);
    assert_eq!(receiver.remaining_bytes(), 1400 + 10 + 1);
    let mut long = datagrams[3].clone();
    long.payload.push(0);
    receiver.add_datagram(long);
    assert_eq!(receiver.collected_datagrams(), 3);
    assert_eq!(receiver.remaining_bytes(), 1400);
    let mut none = datagrams[2].clone();
    none.payload.clear();
    receiver.add_datagram(none);
    assert_eq!(receiver.collected_datagrams(), 4);
    assert_eq!(receiver.remaining_bytes(), 1400);
    assert_eq!(receiver.check_message_scheduled(), ScheduledState::Incomplete);
    let (delivered, _) = receiver.complete().expect("every slot is filled");
    assert_eq!(delivered.content.len(), 2 * 1400 + 10);
}

#[test]
fn more_bytes_than_the_message_has_leave_nothing_remaining() {
    let message = message(2 * 1400);
    let datagrams = data(&message);
    let mut first = datagrams[0].clone();
    first.payload = vec![1; 3000];
    let receiver = open(first);
    assert_eq!(receiver.remaining_bytes(), 0);
    assert_eq!(receiver.register_priority(), (77, 0));
    assert_eq!(receiver.check_message_scheduled(), ScheduledState::Incomplete);
}

#[test]
fn receiver_opens_on_any_datagram_numbered_within_the_message() {
    let config = Config::default();
    let message = message(2 * 1400);
    let datagrams = data(&message);
    assert!(MessageReceiver::new(datagrams[1].clone(), SOURCE, DESTINATION, &config).is_some());
    let mut beyond = datagrams[1].clone();
    beyond.sequence_number = 2;
    assert!(MessageReceiver::new(beyond, SOURCE, DESTINATION, &config).is_none());
    let mut short = datagrams[0].clone();
    short.payload.truncate(100);
    let receiver = MessageReceiver::new(short, SOURCE, DESTINATION, &config).expect("opens");
    assert_eq!(receiver.collected_datagrams(), 1);
    assert_eq!(receiver.expected_datagrams(), 2);
    assert_eq!(receiver.remaining_bytes(), 2 * 1400 - 100);
    let mut empty = datagrams[0].clone();
    empty.message_length = 0;
    assert!(MessageReceiver::new(empty, SOURCE, DESTINATION, &config).is_none());
    let mut huge = datagrams[0].clone();
    huge.message_length = u64::MAX;
    assert!(MessageReceiver::new(huge, SOURCE, DESTINATION, &config).is_none());
}

#[test]
fn a_first_datagram_without_payload_opens_a_receiver() {
    let mut first = data(&message(400))[0].clone();
    first.payload.clear();
    let mut receiver = open(first.clone());
    assert!(receiver.unscheduled_only());
    assert_eq!(receiver.message_length(), 400);
    assert_eq!(receiver.expected_datagrams(), 1);
    assert_eq!(receiver.collected_datagrams(), 1);
    assert_eq!(receiver.remaining_bytes(), 400);
    assert_eq!(receiver.check_message_unscheduled(), UnscheduledState::Incomplete);
    assert_eq!(
        receiver.receive_unscheduled_datagrams(ReceiverEvent::Datagram(first)),
        UnscheduledStep::Wait
    );
    assert_eq!(receiver.collected_datagrams(), 1);
}

#[test]
fn unscheduled_only_follows_the_announced_length() {
    let mut first = data(&message(400))[0].clone();
    first.message_length = 8400;
    let receiver = open(first.clone());
    assert!(receiver.unscheduled_only());
    assert_eq!(receiver.expected_datagrams(), 6);
    first.message_length = 8401;
    let receiver = open(first);
    assert!(!receiver.unscheduled_only());
    assert_eq!(receiver.expected_datagrams(), 7);
}

#[test]
fn completion_with_a_datagram_missing_delivers_nothing() {
    let message = message(2 * 1400);
    let datagrams = data(&message);
    let mut first = datagrams[0].clone();
    first.payload = message.content.clone();
    let mut receiver = open(first);
    assert_eq!(receiver.collected_datagrams(), 1);
    assert_eq!(receiver.expected_datagrams(), 2);
    assert_eq!(receiver.check_message_unscheduled(), UnscheduledState::Complete);
    assert_eq!(receiver.check_message_scheduled(), ScheduledState::Complete);
    assert_eq!(
        receiver.after_unscheduled(UnscheduledState::Complete),
        ReceiverPhase::Complete
    );
    receiver.get_priority(24);
    assert!(receiver.complete().is_none());
    assert_eq!(control(&receiver.grant(1)).priority, 24);
    assert_eq!(receiver.collected_datagrams(), 1);
}

#[test]
fn what_follows_the_unscheduled_phase() {
    let short = open(data(&message(6 * 1400))[0].clone());
    assert!(short.unscheduled_only());
    assert_eq!(short.after_unscheduled(UnscheduledState::Incomplete), ReceiverPhase::Exit);
    assert_eq!(short.after_unscheduled(UnscheduledState::Complete), ReceiverPhase::Complete);
    let long = open(data(&message(6 * 1400 + 1))[0].clone());
    assert!(!long.unscheduled_only());
    assert_eq!(long.after_unscheduled(UnscheduledState::Incomplete), ReceiverPhase::Exit);
    assert_eq!(long.after_unscheduled(UnscheduledState::Complete), ReceiverPhase::Scheduled);
}

fn reassemble(order: &[usize], datagrams: &[HomaDatagram]) -> HomaMessage {
    let mut receiver = open(datagrams[order[0]].clone());
    for &i in &order[1..] {
        receiver.add_datagram(datagrams[i].clone());
    }
    assert_eq!(receiver.check_message_scheduled(), ScheduledState::Complete);
    receiver.build_message()
}

#[test]
fn reassembly_in_any_order() {
    let message = message(7 * 1400 + 123);
    let datagrams = data(&message);
    assert_eq!(datagrams.len(), 8);
    assert_eq!(reassemble(&[0, 1, 2, 3, 4, 5, 6, 7], &datagrams), message);
    assert_eq!(reassemble(&[7, 6, 5, 4, 3, 2, 1, 0], &datagrams), message);
    assert_eq!(reassemble(&[3, 7, 0, 5, 1, 6, 2, 4], &datagrams), message);
    assert_eq!(reassemble(&[3, 3, 7, 0, 5, 0, 1, 6, 2, 7, 4, 4], &datagrams), message);
}

#[test]
fn grant_sequence_never_decreases() {
    let message = message(12 * 1400);
    let datagrams = data(&message);
    let mut receiver = open(datagrams[3].clone());
    let mut last = control(&receiver.next_grant(0)).sequence_number;
    for i in [3usize, 0, 0, 11, 5, 5, 1, 2, 4, 6, 7, 8, 9, 10] {
        receiver.receive_scheduled_datagrams(ReceiverEvent::Datagram(datagrams[i].clone()));
        let next = control(&receiver.next_grant(0)).sequence_number;
        assert!(next >= last);
        assert_eq!(next, receiver.collected_datagrams());
        last = next;
    }
    let (_, closing) = receiver.complete().expect("every datagram is in");
    assert!(control(&closing).sequence_number >= last);
    assert_eq!(control(&receiver.grant(5)).sequence_number, 5);
    receiver.get_priority(16);
    assert_eq!(control(&receiver.grant(5)).priority, 16);
}

#[test]
fn an_unanswered_priority_request_keeps_the_priority() {
    let mut receiver = open(data(&message(12 * 1400))[0].clone());
    assert_eq!(receiver.priority_after(None), 0);
    assert_eq!(receiver.priority_after(Some(8)), 8);
    receiver.get_priority(8);
    assert_eq!(receiver.priority_after(None), 8);
    assert_eq!(receiver.priority_after(Some(0)), 0);
    let priority = receiver.priority_after(None);
    assert_eq!(control(&receiver.next_grant(priority)).priority, 8);
}
