use homa::components::datagram_receiver::handle_packet_payload;
use homa::components::message_receiver::{MessageReceiver, ReceiverEvent, UnscheduledStep};
use homa::components::message_sender::{MessageSender, SenderEvent, SenderPhase, SenderStep};
use homa::config::Config;
use homa::models::datagram::{HomaDatagram, HomaDatagramType};
use homa::models::message::HomaMessage;

const SOURCE: [u8; 4] = [192, 168, 0, 1];
const DESTINATION: [u8; 4] = [192, 168, 0, 2];
const WORKLOAD: [u64; 5] = [1400, 2800, 4200, 5600, 7000];

fn message(length: usize) -> HomaMessage {
    HomaMessage {
        id: 1234,
        source_address: SOURCE,
        destination_address: DESTINATION,
        source_id: 8,
        destination_id: 9,
        content: (0..length).map(|i| (i % 253) as u8).collect(),
    }
}

fn decode(packet: &[u8], dscp: u8) -> HomaDatagram {
    assert_eq!(packet[1], dscp << 2);
    assert_eq!(packet[8], 64);
    assert_eq!(packet[9], 146);
    assert_eq!(&packet[12..16], &SOURCE);
    assert_eq!(&packet[16..20], &DESTINATION);
    assert_eq!(((packet[2] as usize) << 8) | packet[3] as usize, packet.len());
    handle_packet_payload(&packet[20..]).expect("data packet is intact")
}

fn control(kind: HomaDatagramType, sequence_number: u32, priority: u8) -> HomaDatagram {
    let mut datagram = HomaDatagram::default();
    datagram.datagram_type = kind;
    datagram.message_id = 1234;
    datagram.sequence_number = sequence_number;
    datagram.priority = priority;
    datagram.workload = [9, 8, 7, 6, 5];
    datagram
}

#[test]
fn burst_is_the_unscheduled_prefix() {
    let message = message(20 * 1400);
    let mut sender = MessageSender::new(&message, &Config::default());
    assert_eq!(sender.message_id(), 1234);
    assert_eq!(sender.total_datagrams(), 20);
    assert_eq!(sender.destination(), (DESTINATION, 28000));
    let packets = sender.start(24, WORKLOAD);
    assert_eq!(packets.len(), 6);
    for (i, packet) in packets.iter().enumerate() {
        let datagram = decode(packet, 24);
        assert_eq!(datagram.datagram_type, HomaDatagramType::Data);
        assert_eq!(datagram.sequence_number, i as u32);
        assert_eq!(datagram.message_id, 1234);
        assert_eq!(datagram.source_id, 8);
        assert_eq!(datagram.destination_id, 9);
        assert_eq!(datagram.message_length, 28000);
        assert_eq!(datagram.workload, WORKLOAD);
        assert_eq!(datagram.priority, 24);
        assert_eq!(datagram.payload, message.content[i * 1400..(i + 1) * 1400].to_vec());
    }
}

#[test]
fn burst_of_a_short_message() {
    let message = message(400);
    let mut sender = MessageSender::new(&message, &Config::default());
    let packets = sender.start(56, WORKLOAD);
    assert_eq!(packets.len(), 1);
    assert_eq!(decode(&packets[0], 56).payload, message.content);
    let mut empty = MessageSender::new(&self::message(0), &Config::default());
    assert!(empty.start(56, WORKLOAD).is_empty());
}

#[test]
fn timeouts_repeat_the_burst_until_the_budget_is_spent() {
    let message = message(3 * 1400);
    let mut sender = MessageSender::new(&message, &Config::default());
    let burst = sender.start(40, WORKLOAD);
    for _ in 0..5 {
        let step = sender.send_unscheduled_datagrams(&SenderEvent::Timeout);
        assert_eq!(step, SenderStep { packets: burst.clone(), workload: None, finished: false });
    }
    let step = sender.send_unscheduled_datagrams(&SenderEvent::Timeout);
    assert_eq!(step, SenderStep { packets: Vec::new(), workload: None, finished: true });
}

#[test]
fn grant_is_served_at_its_priority() {
    let message = message(20 * 1400);
    let mut sender = MessageSender::new(&message, &Config::default());
    sender.start(24, WORKLOAD);
    let grant = control(HomaDatagramType::Grant, 6, 8);
    let step = sender.send_unscheduled_datagrams(&SenderEvent::Control(grant.clone()));
    assert!(!step.finished);
    assert_eq!(step.workload, Some([9, 8, 7, 6, 5]));
    assert_eq!(step.packets.len(), 1);
    let datagram = decode(&step.packets[0], 8);
    assert_eq!(datagram.sequence_number, 6);
    assert_eq!(datagram.priority, 0);
    assert_eq!(datagram.workload, WORKLOAD);
    assert_eq!(datagram.payload, message.content[6 * 1400..7 * 1400].to_vec());
    assert_eq!(sender.handle_grant(&grant), Some(step.packets[0].clone()));
    assert_eq!(sender.handle_grant_or_resend(&grant), step.packets);
    assert_eq!(sender.send_datagram(6, 8), Some(step.packets[0].clone()));
    assert_eq!(sender.send_datagram(20, 8), None);
}

#[test]
fn resend_is_served_at_the_unscheduled_priority() {
    let message = message(20 * 1400);
    let mut sender = MessageSender::new(&message, &Config::default());
    sender.start(24, WORKLOAD);
    let resend = control(HomaDatagramType::Resend, 3, 0);
    let step = sender.send_requested_datagrams(&SenderEvent::Control(resend.clone()));
    assert!(!step.finished);
    assert_eq!(step.packets.len(), 1);
    assert_eq!(decode(&step.packets[0], 24).sequence_number, 3);
    assert_eq!(sender.handle_resend(&resend), Some(step.packets[0].clone()));
    let beyond = control(HomaDatagramType::Resend, 20, 0);
    let step = sender.send_requested_datagrams(&SenderEvent::Control(beyond));
    assert_eq!(
        step,
        SenderStep { packets: Vec::new(), workload: Some([9, 8, 7, 6, 5]), finished: false }
    );
    let busy = control(HomaDatagramType::Busy, 3, 0);
    assert!(sender.handle_grant_or_resend(&busy).is_empty());
}

#[test]
fn closing_grant_finishes_the_message() {
    let message = message(20 * 1400);
    let mut sender = MessageSender::new(&message, &Config::default());
    sender.start(24, WORKLOAD);
    let closing = control(HomaDatagramType::Grant, 20, 0);
    assert!(sender.check_message_transmitted(&closing));
    assert!(!sender.check_message_transmitted(&control(HomaDatagramType::Grant, 19, 0)));
    assert!(!sender.check_message_transmitted(&control(HomaDatagramType::Resend, 20, 0)));
    let step = sender.send_requested_datagrams(&SenderEvent::Control(closing.clone()));
    assert_eq!(
        step,
        SenderStep { packets: Vec::new(), workload: Some([9, 8, 7, 6, 5]), finished: true }
    );
    let early = sender.send_unscheduled_datagrams(&SenderEvent::Control(closing));
    assert!(early.finished);
    let late = sender.send_requested_datagrams(&SenderEvent::Timeout);
    assert_eq!(late, SenderStep { packets: Vec::new(), workload: None, finished: true });
}

#[test]
fn slices_stop_at_the_end_of_the_message() {
    let message = message(4 * 1400);
    let mut sender = MessageSender::new(&message, &Config::default());
    sender.start(32, WORKLOAD);
    let packets = sender.send_datagram_slice(2, 9, 16);
    assert_eq!(packets.len(), 2);
    assert_eq!(decode(&packets[0], 16).sequence_number, 2);
    assert_eq!(decode(&packets[1], 16).sequence_number, 3);
    assert_eq!(decode(&packets[1], 16).priority, 32);
    assert!(sender.send_datagram_slice(3, 3, 16).is_empty());
    assert!(sender.send_datagram_slice(3, 1, 16).is_empty());
}

#[test]
fn sender_and_receiver_complete_a_message() {
    let config = Config::default();
    let message = message(9 * 1400 + 5);
    let mut sender = MessageSender::new(&message, &config);
    let burst = sender.start(24, WORKLOAD);
    let mut arrivals: Vec<HomaDatagram> = burst.iter().map(|p| decode(p, 24)).collect();
    let first = arrivals.remove(0);
    let mut receiver = MessageReceiver::new(first, SOURCE, DESTINATION, &config).unwrap();
    let mut step = UnscheduledStep::Wait;
    for datagram in arrivals {
        step = receiver.receive_unscheduled_datagrams(ReceiverEvent::Datagram(datagram));
    }
    assert_eq!(step, UnscheduledStep::Complete);
    assert!(!receiver.unscheduled_only());
    let mut finished = false;
    let mut rounds = 0;
    while !finished {
        rounds += 1;
        let packet = if receiver.remaining_bytes() == 0 {
            receiver.complete().expect("every datagram is in").1
        } else {
            receiver.next_grant(8)
        };
        let grant = handle_packet_payload(&packet[20..]).unwrap();
        let answer = sender.send_requested_datagrams(&SenderEvent::Control(grant));
        finished = answer.finished;
        for packet in answer.packets {
            receiver.receive_scheduled_datagrams(ReceiverEvent::Datagram(decode(&packet, 8)));
        }
    }
    assert_eq!(rounds, 5);
    assert_eq!(receiver.build_message(), message);
}

#[test]
fn phases_of_a_sender() {
    let message = message(20 * 1400);
    let config = Config::default();
    let mut sender = MessageSender::new(&message, &config);
    sender.start(24, WORKLOAD);
    for _ in 0..config.RESENDS {
        let step = sender.send_unscheduled_datagrams(&SenderEvent::Timeout);
        assert_eq!(step.after_unscheduled(), SenderPhase::Unscheduled);
    }
    let step = sender.send_unscheduled_datagrams(&SenderEvent::Timeout);
    assert_eq!(step.after_unscheduled(), SenderPhase::Done);
    let grant = SenderEvent::Control(control(HomaDatagramType::Grant, 6, 8));
    let step = sender.send_unscheduled_datagrams(&grant);
    assert_eq!(step.after_unscheduled(), SenderPhase::Requested);
    let step = sender.send_requested_datagrams(&grant);
    assert_eq!(step.after_requested(), SenderPhase::Requested);
    let closing = SenderEvent::Control(control(HomaDatagramType::Grant, 20, 0));
    let step = sender.send_unscheduled_datagrams(&closing);
    assert_eq!(step.after_unscheduled(), SenderPhase::Done);
    let step = sender.send_requested_datagrams(&closing);
    assert_eq!(step.after_requested(), SenderPhase::Done);
    let step = sender.send_requested_datagrams(&SenderEvent::Timeout);
    assert_eq!(step.after_requested(), SenderPhase::Done);
}
