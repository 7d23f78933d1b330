use homa::components::application::{Application, ApplicationAction, ApplicationMessage};
use homa::components::application_registrar::ApplicationRegistrar;
use homa::components::message_receiver::MessageReceiver;
use homa::components::message_sender::MessageSender;
use homa::config::Config;
use homa::homa::{Homa, Route};
use homa::models::datagram::{HomaDatagram, HomaDatagramType};
use homa::models::message::HomaMessage;
use homa::models::registration::HomaRegistrationMessage;

const SOURCE: [u8; 4] = [10, 0, 0, 1];
const DESTINATION: [u8; 4] = [10, 0, 0, 2];

fn datagram(kind: HomaDatagramType, message_id: u64) -> HomaDatagram {
    let mut datagram = HomaDatagram::default();
    datagram.datagram_type = kind;
    datagram.message_id = message_id;
    datagram.destination_id = 4;
    datagram.message_length = 2;
    datagram.payload = vec![1, 2];
    if kind != HomaDatagramType::Data {
        datagram.message_length = 0;
        datagram.payload = Vec::new();
    }
    datagram
}

fn message() -> HomaMessage {
    HomaMessage {
        id: 0,
        source_address: SOURCE,
        destination_address: DESTINATION,
        source_id: 4,
        destination_id: 5,
        content: vec![1, 2, 3],
    }
}

#[test]
fn data_datagrams_spawn_then_forward() {
    let config = Config::default();
    let mut application = Application::new(4);
    assert_eq!(application.application_id(), 4);
    let first = datagram(HomaDatagramType::Data, 7);
    let expected = MessageReceiver::new(first.clone(), SOURCE, DESTINATION, &config).unwrap();
    assert_eq!(
        application.handle_data_datagram(first.clone(), SOURCE, DESTINATION, &config),
        ApplicationAction::SpawnReceiver(expected)
    );
    assert!(application.has_receiver(7));
    assert_eq!(
        application.handle_from_datagram_receiver(first.clone(), SOURCE, DESTINATION, &config),
        ApplicationAction::ForwardToReceiver(first)
    );
}

#[test]
fn a_datagram_of_no_message_opens_nothing() {
    let config = Config::default();
    let mut application = Application::new(4);
    let mut stray = datagram(HomaDatagramType::Data, 7);
    stray.sequence_number = 1;
    assert_eq!(
        application.handle_data_datagram(stray, SOURCE, DESTINATION, &config),
        ApplicationAction::Nothing
    );
    assert!(!application.has_receiver(7));
    assert!(!application.was_delivered(7));
}

#[test]
fn a_datagram_opens_a_receiver_whatever_its_payload_length() {
    let config = Config::default();
    let mut application = Application::new(4);
    let mut long = datagram(HomaDatagramType::Data, 7);
    long.payload.push(3);
    match application.handle_data_datagram(long, SOURCE, DESTINATION, &config) {
        ApplicationAction::SpawnReceiver(receiver) => {
            assert_eq!(receiver.message_id(), 7);
            assert_eq!(receiver.collected_datagrams(), 1);
            assert_eq!(receiver.remaining_bytes(), 0);
        }
        other => panic!("no receiver: {:?}", other),
    }
    assert!(application.has_receiver(7));
    let mut bare = datagram(HomaDatagramType::Data, 8);
    bare.payload.clear();
    match application.handle_data_datagram(bare, SOURCE, DESTINATION, &config) {
        ApplicationAction::SpawnReceiver(receiver) => {
            assert_eq!(receiver.message_id(), 8);
            assert_eq!(receiver.remaining_bytes(), 2);
        }
        other => panic!("no receiver: {:?}", other),
    }
    assert!(application.has_receiver(8));
}

#[test]
fn delivered_messages_are_never_received_again() {
    let config = Config::default();
    let mut application = Application::new(4);
    let first = datagram(HomaDatagramType::Data, 7);
    application.handle_data_datagram(first.clone(), SOURCE, DESTINATION, &config);
    assert_eq!(
        application
            .handle_application_message(ApplicationMessage::FromMessageReceiver(7), &config),
        ApplicationAction::AbortReceiver(7)
    );
    assert!(application.was_delivered(7));
    assert!(!application.has_receiver(7));
    for _ in 0..3 {
        assert_eq!(
            application.handle_application_message(
                ApplicationMessage::FromDatagramReceiver(first.clone(), SOURCE, DESTINATION),
                &config
            ),
            ApplicationAction::Nothing
        );
        assert!(!application.has_receiver(7));
    }
    application.handle_application_message(ApplicationMessage::Shutdown, &config);
    application.handle_application_message(ApplicationMessage::FromMessageSender(7), &config);
    assert!(application.was_delivered(7));
    assert_eq!(
        application.handle_data_datagram(first, SOURCE, DESTINATION, &config),
        ApplicationAction::Nothing
    );
}

#[test]
fn control_datagrams_reach_live_senders_only() {
    let config = Config::default();
    let mut application = Application::new(4);
    let grant = datagram(HomaDatagramType::Grant, 5);
    assert_eq!(application.handle_control_datagram(grant.clone()), ApplicationAction::Nothing);
    let mut expected = message();
    expected.id = 5;
    assert_eq!(
        application.accept_message(message(), 5, &config),
        ApplicationAction::SpawnSender(MessageSender::new(&expected, &config))
    );
    assert!(application.has_sender(5));
    assert_eq!(application.accept_message(message(), 5, &config), ApplicationAction::Nothing);
    assert_eq!(
        application.handle_from_datagram_receiver(grant.clone(), SOURCE, DESTINATION, &config),
        ApplicationAction::ForwardToSender(grant.clone())
    );
    let resend = datagram(HomaDatagramType::Resend, 5);
    assert_eq!(
        application.handle_control_datagram(resend.clone()),
        ApplicationAction::ForwardToSender(resend)
    );
    assert_eq!(application.handle_from_message_sender(5), ApplicationAction::AbortSender(5));
    assert!(!application.has_sender(5));
    assert_eq!(application.handle_control_datagram(grant), ApplicationAction::Nothing);
}

#[test]
fn submitted_messages_get_an_id_and_a_sender() {
    let config = Config::default();
    let mut application = Application::new(4);
    let mut ids = Vec::new();
    for _ in 0..20 {
        match application.handle_from_application_reader(message(), &config) {
            ApplicationAction::SpawnSender(sender) => {
                assert!(application.has_sender(sender.message_id()));
                assert_eq!(sender.total_datagrams(), 1);
                assert_eq!(sender.destination(), (DESTINATION, 3));
                ids.push(sender.message_id());
            }
            other => panic!("expected a sender, got {:?}", other),
        }
    }
    ids.sort();
    ids.dedup();
    assert_eq!(ids.len(), 20);
    assert!(matches!(
        application.handle_application_message(
            ApplicationMessage::FromApplicationReader(message()),
            &config
        ),
        ApplicationAction::SpawnSender(_)
    ));
}

#[test]
fn shutdown_leaves_nothing_live() {
    let config = Config::default();
    let mut application = Application::new(4);
    application.handle_data_datagram(
        datagram(HomaDatagramType::Data, 1),
        SOURCE,
        DESTINATION,
        &config,
    );
    application.accept_message(message(), 2, &config);
    assert!(application.has_receiver(1));
    assert_eq!(application.handle_shutdown(), ApplicationAction::Shutdown(4));
    assert!(!application.has_receiver(1));
    assert!(!application.has_sender(2));
    assert!(!application.was_delivered(1));
}

#[test]
fn registrar_refuses_a_second_registration() {
    let mut registrar = ApplicationRegistrar::new();
    assert!(!registrar.is_registered(9));
    assert_eq!(
        registrar.create_application(HomaRegistrationMessage { application_id: 9 }),
        Ok(())
    );
    assert!(registrar.is_registered(9));
    assert_eq!(
        registrar.create_application(HomaRegistrationMessage { application_id: 9 }),
        Err("ApplicationRegistrar tried to create existing application".to_string())
    );
    assert_eq!(registrar.handle_from_application_listener(&[10, 0, 0, 0]), Ok(10));
    assert_eq!(
        registrar.handle_from_application_listener(&[10, 0, 0, 0]),
        Err("ApplicationRegistrar tried to create existing application".to_string())
    );
    assert_eq!(
        registrar.handle_from_application_listener(&[10, 0, 0]),
        Err("HomaRegistrationMessage not deserialized".to_string())
    );
    registrar.handle_from_application(9);
    assert!(!registrar.is_registered(9));
    assert!(registrar.is_registered(10));
    assert_eq!(registrar.handle_from_application_listener(&[9, 0, 0, 0]), Ok(9));
}

#[test]
fn router_prefers_the_live_receiver() {
    let mut homa = Homa::new();
    let data = datagram(HomaDatagramType::Data, 7);
    assert_eq!(homa.handle_incoming_data_datagram(&data), Route::Drop);
    assert!(homa.register_application(4));
    assert!(!homa.register_application(4));
    assert_eq!(homa.handle_incoming_data_datagram(&data), Route::ToApplication(4));
    homa.receiver_message_handler(7, true);
    assert_eq!(homa.handle_incoming_data_datagram(&data), Route::ToMessageReceiver(7));
    homa.unregister_application(4);
    assert_eq!(homa.handle_incoming_data_datagram(&data), Route::ToMessageReceiver(7));
    homa.receiver_message_handler(7, false);
    assert_eq!(homa.handle_incoming_data_datagram(&data), Route::Drop);
}

#[test]
fn router_sends_control_to_the_live_sender() {
    let mut homa = Homa::new();
    let config = Config::default();
    let grant = datagram(HomaDatagramType::Grant, 33);
    assert_eq!(homa.handle_incoming_control_datagram(&grant), Route::Drop);
    let mut message = message();
    message.id = 33;
    let sender = homa.transmitter_message_handler(&message, &config).expect("fresh id");
    assert_eq!(sender.message_id(), 33);
    assert_eq!(sender.total_datagrams(), 1);
    assert_eq!(homa.handle_incoming_control_datagram(&grant), Route::ToMessageSender(33));
    assert!(homa.transmitter_message_handler(&message, &config).is_none());
    homa.transmitter_message_ended(33);
    assert_eq!(homa.handle_incoming_control_datagram(&grant), Route::Drop);
    assert!(homa.transmitter_message_handler(&message, &config).is_some());
}

#[test]
fn a_mailbox_without_senders_accepts_every_submission() {
    let config = Config::default();
    for _ in 0..50 {
        let mut application = Application::new(4);
        match application.handle_from_application_reader(message(), &config) {
            ApplicationAction::SpawnSender(sender) => {
                assert!(application.has_sender(sender.message_id()));
                let mut expected = message();
                expected.id = sender.message_id();
                assert_eq!(sender, MessageSender::new(&expected, &config));
            }
            other => panic!("expected a sender, got {:?}", other),
        }
    }
}
