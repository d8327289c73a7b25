use management::protocol::{Alias, ControlMessage, MessageType, NetworkState};

fn s(x: &str) -> String {
    x.to_string()
}

fn sample_state() -> NetworkState {
    NetworkState {
        whitelisted: vec![s("W1"), s("W2")],
        connected: vec![s("C1"), s("C2")],
        whitelisted_sender: vec![s("S1")],
        aliases: vec![
            Alias { peer: s("pia"), alias: s("alice") },
            Alias { peer: s("paul"), alias: s("bob") },
            Alias { peer: s("petra"), alias: s("carol") },
        ],
    }
}

#[test]
fn new_message_has_payload_and_no_state() {
    let m = ControlMessage::new(MessageType::StoreMessage, s("hello"));
    assert_eq!(m.message_type, MessageType::StoreMessage);
    assert_eq!(m.payload, "hello");
    assert_eq!(m.state, None);
}

#[test]
fn plain_message_has_exact_bytes() {
    let m = ControlMessage::new(MessageType::AddWhitelistPeer, s("ab"));
    assert_eq!(m.encode_to_vec(), vec![0x08, 0x01, 0x12, 0x02, b'a', b'b']);
}

#[test]
fn first_kind_and_empty_payload_are_left_out() {
    let m = ControlMessage::new(MessageType::DisplayMessage, s(""));
    assert_eq!(m.encode_to_vec(), Vec::<u8>::new());
    assert_eq!(ControlMessage::decode(&[]), Some(m));
}

#[test]
fn state_message_has_exact_bytes() {
    let m = ControlMessage {
        message_type: MessageType::State,
        payload: s(""),
        state: Some(NetworkState {
            whitelisted: vec![s("w")],
            connected: vec![s("")],
            whitelisted_sender: vec![],
            aliases: vec![Alias { peer: s("p"), alias: s("a") }],
        }),
    };
    assert_eq!(
        m.encode_to_vec(),
        vec![
            0x08, 0x05, 0x1a, 0x0d, 0x0a, 0x01, b'w', 0x12, 0x00, 0x22, 0x06, 0x0a, 0x01, b'p',
            0x12, 0x01, b'a'
        ]
    );
}

#[test]
fn round_trip_with_embedded_state() {
    let m = ControlMessage {
        message_type: MessageType::State,
        payload: s(""),
        state: Some(sample_state()),
    };
    assert_eq!(ControlMessage::decode(&m.encode_to_vec()), Some(m));
}

#[test]
fn round_trip_of_every_kind() {
    let kinds = [
        MessageType::DisplayMessage,
        MessageType::AddWhitelistPeer,
        MessageType::AddWhitelistSender,
        MessageType::PublishAlias,
        MessageType::NetworkSolicitation,
        MessageType::State,
        MessageType::RequestMessage,
        MessageType::StoreMessage,
        MessageType::Upgrade,
        MessageType::RequestUpgrade,
        MessageType::NetworkBinaryVersion,
        MessageType::PeerConnected,
        MessageType::PeerDisconnected,
    ];
    for k in kinds {
        let m = ControlMessage::new(k, s("päylöad ☃"));
        assert_eq!(ControlMessage::decode(&m.encode_to_vec()), Some(m));
    }
}

#[test]
fn round_trip_of_long_payload_uses_two_length_bytes() {
    let text: String = std::iter::repeat('x').take(300).collect();
    let m = ControlMessage::new(MessageType::DisplayMessage, text);
    let bytes = m.encode_to_vec();
    assert_eq!(&bytes[..3], &[0x12, 0xac, 0x02]);
    assert_eq!(bytes.len(), 303);
    assert_eq!(ControlMessage::decode(&bytes), Some(m));
}

#[test]
fn round_trip_with_empty_state_and_empty_alias() {
    let m = ControlMessage {
        message_type: MessageType::State,
        payload: s("x"),
        state: Some(NetworkState {
            whitelisted: vec![],
            connected: vec![],
            whitelisted_sender: vec![s(""), s("")],
            aliases: vec![Alias { peer: s(""), alias: s("") }],
        }),
    };
    assert_eq!(ControlMessage::decode(&m.encode_to_vec()), Some(m));
}

#[test]
fn undecodable_bytes_give_no_message() {
    // unknown kind
    assert_eq!(ControlMessage::decode(&[0x08, 0x0d]), None);
    // truncated payload
    assert_eq!(ControlMessage::decode(&[0x12, 0x05, b'a']), None);
    // payload that is not UTF-8
    assert_eq!(ControlMessage::decode(&[0x12, 0x01, 0xff]), None);
    // unknown field
    assert_eq!(ControlMessage::decode(&[0x30, 0x00]), None);
    // fields out of order
    assert_eq!(ControlMessage::decode(&[0x12, 0x01, b'a', 0x08, 0x01]), None);
    // trailing bytes
    assert_eq!(ControlMessage::decode(&[0x08, 0x01, 0x00]), None);
    // a length that never ends
    assert_eq!(ControlMessage::decode(&[0x12, 0x80, 0x80, 0x80, 0x80, 0x80, 0x80, 0x80, 0x80, 0x80, 0x80, 0x01]), None);
}
