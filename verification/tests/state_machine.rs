use management::events::{Effect, NetworkEvent, Pending, Reply, UserCommand};
use management::management::Management;
use management::protocol::{Alias, ControlMessage, MessageType, NetworkState};

fn s(x: &str) -> String {
    x.to_string()
}

fn msg(kind: MessageType, payload: &str) -> ControlMessage {
    ControlMessage::new(kind, s(payload))
}

fn send(peer: &str, kind: MessageType, payload: &str) -> Effect {
    Effect::Send { peer: s(peer), message: msg(kind, payload) }
}

fn node(id: &str) -> Management {
    Management::new(s(id), Some(s("1.4.0")))
}

#[test]
fn display_message_goes_to_the_local_output() {
    let mut m = node("me");
    let effects = m.handle_message(s("p"), msg(MessageType::DisplayMessage, "hi"));
    assert_eq!(effects, vec![Effect::Display(s("hi"))]);
}

#[test]
fn whitelist_peer_message_is_forwarded_to_the_network_layer() {
    let mut m = node("me");
    let effects = m.handle_message(s("p"), msg(MessageType::AddWhitelistPeer, "q"));
    assert_eq!(effects, vec![Effect::AddWhitelisted(s("q"))]);
}

#[test]
fn unauthorized_sender_is_dropped() {
    let mut m = node("me");
    assert_eq!(m.handle_message(s("p"), msg(MessageType::AddWhitelistSender, "boss")), vec![]);
    assert_eq!(m.authorized_senders(), &vec![s("boss")]);
    assert_eq!(m.handle_message(s("p"), msg(MessageType::DisplayMessage, "hi")), vec![]);
    assert_eq!(m.handle_message(s("p"), msg(MessageType::PublishAlias, "pp")), vec![]);
    assert_eq!(m.aliases(), &Vec::<Alias>::new());
    assert_eq!(
        m.handle_message(s("boss"), msg(MessageType::DisplayMessage, "hi")),
        vec![Effect::Display(s("hi"))]
    );
}

#[test]
fn alias_already_claimed_is_rejected() {
    let mut m = node("me");
    m.handle_message(s("pia"), msg(MessageType::PublishAlias, "alice"));
    assert_eq!(m.aliases(), &vec![Alias { peer: s("pia"), alias: s("alice") }]);
    let effects = m.handle_message(s("paul"), msg(MessageType::PublishAlias, "alice"));
    assert_eq!(effects, vec![]);
    assert_eq!(m.aliases(), &vec![Alias { peer: s("pia"), alias: s("alice") }]);
}

#[test]
fn new_alias_replaces_the_old_alias_of_its_owner() {
    let mut m = node("me");
    m.handle_message(s("pia"), msg(MessageType::PublishAlias, "alice"));
    m.handle_message(s("paul"), msg(MessageType::PublishAlias, "bob"));
    m.handle_message(s("pia"), msg(MessageType::PublishAlias, "al"));
    assert_eq!(
        m.aliases(),
        &vec![Alias { peer: s("paul"), alias: s("bob") }, Alias { peer: s("pia"), alias: s("al") }]
    );
    // the released alias can be claimed again
    m.handle_message(s("petra"), msg(MessageType::PublishAlias, "alice"));
    assert_eq!(m.aliases().len(), 3);
}

#[test]
fn solicitation_is_answered_with_exact_snapshot() {
    let mut m = node("self");
    m.handle_message(s("P"), msg(MessageType::PeerConnected, "P"));
    m.handle_message(s("Q"), msg(MessageType::PublishAlias, "bob"));
    let effects = m.handle_message(s("P"), msg(MessageType::NetworkSolicitation, ""));
    assert_eq!(effects, vec![Effect::QueryWhitelist(Pending::StateFor(s("P")))]);
    let effects = m.handle_whitelist(Pending::StateFor(s("P")), vec![s("W1")]);
    assert_eq!(
        effects,
        vec![Effect::Send {
            peer: s("P"),
            message: ControlMessage {
                message_type: MessageType::State,
                payload: s(""),
                state: Some(NetworkState {
                    whitelisted: vec![s("W1")],
                    connected: vec![s("P"), s("self")],
                    whitelisted_sender: vec![],
                    aliases: vec![Alias { peer: s("Q"), alias: s("bob") }],
                }),
            },
        }]
    );
}

#[test]
fn newer_version_triggers_exactly_one_upgrade_request() {
    let mut m = node("me");
    let effects = m.handle_message(s("p"), msg(MessageType::NetworkBinaryVersion, "1.5.0"));
    assert_eq!(effects, vec![send("p", MessageType::RequestUpgrade, "")]);
    assert!(m.upgrade_in_progress());
    let effects = m.handle_message(s("p"), msg(MessageType::NetworkBinaryVersion, "1.6.0"));
    assert_eq!(effects, vec![]);
    assert!(m.upgrade_in_progress());
}

#[test]
fn same_or_older_version_is_ignored() {
    let mut m = node("me");
    assert_eq!(m.handle_message(s("p"), msg(MessageType::NetworkBinaryVersion, "1.4.0")), vec![]);
    assert_eq!(m.handle_message(s("p"), msg(MessageType::NetworkBinaryVersion, "1.3.9")), vec![]);
    // the comparison is lexicographic, not by version number
    assert_eq!(m.handle_message(s("p"), msg(MessageType::NetworkBinaryVersion, "1.10.0")), vec![]);
    assert!(!m.upgrade_in_progress());
}

#[test]
fn unknown_local_version_asks_for_any_binary() {
    let mut m = Management::new(s("me"), None);
    let effects = m.handle_message(s("p"), msg(MessageType::NetworkBinaryVersion, "0.0.1"));
    assert_eq!(effects, vec![send("p", MessageType::RequestUpgrade, "")]);
}

#[test]
fn upgrade_request_is_answered_for_each_listening_address() {
    let mut m = node("me");
    m.handle_network_event(NetworkEvent::NewListenAddress { addr: s("10.0.0.1") });
    m.handle_network_event(NetworkEvent::NewListenAddress { addr: s("127.0.0.1") });
    m.handle_network_event(NetworkEvent::NewListenAddress { addr: s("10.0.0.1") });
    let effects = m.handle_message(s("p"), msg(MessageType::RequestUpgrade, ""));
    assert_eq!(
        effects,
        vec![
            Effect::ServeBinaryOnce,
            send("p", MessageType::Upgrade, "10.0.0.1:9803"),
            send("p", MessageType::Upgrade, "127.0.0.1:9803"),
        ]
    );
}

#[test]
fn upgrade_request_is_ignored_while_upgrading() {
    let mut m = node("me");
    m.handle_message(s("p"), msg(MessageType::NetworkBinaryVersion, "9"));
    assert_eq!(m.handle_message(s("q"), msg(MessageType::RequestUpgrade, "")), vec![]);
}

#[test]
fn upgrade_message_fetches_the_binary() {
    let mut m = node("me");
    assert_eq!(
        m.handle_message(s("p"), msg(MessageType::Upgrade, "10.0.0.1:9803")),
        vec![Effect::UpgradeBinary(s("10.0.0.1:9803"))]
    );
}

#[test]
fn store_then_request_delivers_to_the_sender() {
    let mut m = node("me");
    assert_eq!(m.handle_message(s("p"), msg(MessageType::RequestMessage, "")), vec![]);
    assert_eq!(m.handle_message(s("p"), msg(MessageType::StoreMessage, "kept")), vec![]);
    assert_eq!(
        m.handle_message(s("p"), msg(MessageType::RequestMessage, "")),
        vec![send("p", MessageType::DisplayMessage, "kept")]
    );
    assert_eq!(m.handle_message(s("q"), msg(MessageType::RequestMessage, "")), vec![]);
}

#[test]
fn peer_connected_hands_over_the_mailbox_at_bootstrap() {
    let mut m = node("me");
    m.handle_message(s("x"), msg(MessageType::StoreMessage, "for x"));
    m.handle_user_command(UserCommand::SendMsg { peer: None, message: s("to all") });
    m.handle_message(s("a"), msg(MessageType::StoreMessage, "for a"));
    let effects = m.handle_message(s("p"), msg(MessageType::PeerConnected, "p"));
    assert_eq!(
        effects,
        vec![
            send("p", MessageType::StoreMessage, "for a"),
            send("p", MessageType::StoreMessage, "to all"),
            send("p", MessageType::StoreMessage, "to all"),
        ]
    );
    assert_eq!(m.dht().get_online_peers(), &vec![s("me"), s("p")]);
}

#[test]
fn peer_disconnected_forwards_to_the_new_successor() {
    let mut m = node("c");
    for p in ["a", "b", "d", "e"] {
        m.handle_message(s(p), msg(MessageType::PeerConnected, p));
    }
    m.handle_message(s("ab"), msg(MessageType::StoreMessage, "one"));
    let effects = m.handle_message(s("b"), msg(MessageType::PeerDisconnected, "b"));
    assert_eq!(effects, vec![send("d", MessageType::StoreMessage, "one")]);
    assert_eq!(m.dht().get_online_peers(), &vec![s("a"), s("c"), s("d"), s("e")]);
    // the local node never leaves its own ring
    assert_eq!(m.handle_message(s("x"), msg(MessageType::PeerDisconnected, "c")), vec![]);
    assert_eq!(m.dht().get_online_peers(), &vec![s("a"), s("c"), s("d"), s("e")]);
}

#[test]
fn state_is_merged_and_pending_messages_are_pulled() {
    let mut m = node("m");
    m.handle_message(s("q"), msg(MessageType::PublishAlias, "queue"));
    let state = NetworkState {
        whitelisted: vec![s("w1"), s("w2")],
        connected: vec![s("z"), s("b")],
        whitelisted_sender: vec![],
        aliases: vec![
            Alias { peer: s("other"), alias: s("queue") },
            Alias { peer: s("r"), alias: s("river") },
        ],
    };
    let effects = m.handle_message(
        s("b"),
        ControlMessage { message_type: MessageType::State, payload: s(""), state: Some(state) },
    );
    assert_eq!(
        effects,
        vec![
            Effect::AddWhitelisted(s("w1")),
            Effect::AddWhitelisted(s("w2")),
            send("z", MessageType::RequestMessage, ""),
        ]
    );
    assert_eq!(m.dht().get_online_peers(), &vec![s("b"), s("m"), s("z")]);
    assert_eq!(
        m.aliases(),
        &vec![Alias { peer: s("q"), alias: s("queue") }, Alias { peer: s("r"), alias: s("river") }]
    );
}

#[test]
fn state_merge_adds_authorized_senders() {
    let mut m = node("m");
    let state = NetworkState {
        whitelisted: vec![],
        connected: vec![],
        whitelisted_sender: vec![s("boss")],
        aliases: vec![],
    };
    let effects = m.handle_message(
        s("b"),
        ControlMessage { message_type: MessageType::State, payload: s(""), state: Some(state) },
    );
    assert_eq!(effects, vec![]);
    assert_eq!(m.authorized_senders(), &vec![s("boss")]);
}

#[test]
fn state_message_without_state_is_dropped() {
    let mut m = node("m");
    assert_eq!(m.handle_message(s("b"), msg(MessageType::State, "")), vec![]);
    assert_eq!(m.dht().get_online_peers(), &vec![s("m")]);
}

#[test]
fn broadcast_command_stores_and_publishes() {
    let mut m = node("me");
    let effects = m.handle_user_command(UserCommand::SendMsg { peer: None, message: s("all") });
    assert_eq!(effects, vec![Effect::Publish(msg(MessageType::DisplayMessage, "all"))]);
    assert_eq!(m.dht().get_content(&s("anyone")), Some(s("all")));
}

#[test]
fn send_command_routes_through_owner_and_backup() {
    let mut m = node("b");
    for p in ["d", "f"] {
        m.handle_message(s(p), msg(MessageType::PeerConnected, p));
    }
    // owner d is the target: direct delivery; backup f gets a StoreMessage addressed to d
    let effects = m.handle_user_command(UserCommand::SendMsg { peer: Some(s("d")), message: s("x") });
    assert_eq!(
        effects,
        vec![send("d", MessageType::DisplayMessage, "x"), send("d", MessageType::StoreMessage, "x")]
    );
    assert_eq!(m.dht().get_content(&s("d")), None);
    // target e is offline: owner f, backup b (local) stores
    let effects = m.handle_user_command(UserCommand::SendMsg { peer: Some(s("e")), message: s("y") });
    assert_eq!(effects, vec![send("e", MessageType::StoreMessage, "y")]);
    assert_eq!(m.dht().get_content(&s("e")), Some(s("y")));
}

#[test]
fn whitelist_command_is_a_no_op_for_a_listed_peer() {
    let mut m = node("me");
    let effects = m.handle_user_command(UserCommand::Whitelist(s("p")));
    assert_eq!(effects, vec![Effect::QueryWhitelist(Pending::Whitelist(s("p")))]);
    assert_eq!(m.handle_whitelist(Pending::Whitelist(s("p")), vec![s("p")]), vec![]);
}

#[test]
fn whitelist_command_announces_and_solicits() {
    let mut m = node("me");
    let effects = m.handle_whitelist(Pending::Whitelist(s("p")), vec![s("q")]);
    assert_eq!(
        effects,
        vec![
            Effect::AddWhitelisted(s("p")),
            Effect::Pause(200),
            Effect::Publish(msg(MessageType::AddWhitelistPeer, "p")),
            Effect::Pause(200),
            Effect::QueryWhitelist(Pending::StateFor(s("p"))),
        ]
    );
}

#[test]
fn authorize_command_applies_locally_and_publishes() {
    let mut m = node("me");
    let effects = m.handle_user_command(UserCommand::Authorize(s("boss")));
    assert_eq!(effects, vec![Effect::Publish(msg(MessageType::AddWhitelistSender, "boss"))]);
    assert_eq!(m.authorized_senders(), &vec![s("boss")]);
    // the local node is no authorized sender itself: a second authorization is published only
    let effects = m.handle_user_command(UserCommand::Authorize(s("other")));
    assert_eq!(effects, vec![Effect::Publish(msg(MessageType::AddWhitelistSender, "other"))]);
    assert_eq!(m.authorized_senders(), &vec![s("boss")]);
}

#[test]
fn alias_and_query_commands() {
    let mut m = node("me");
    assert_eq!(
        m.handle_user_command(UserCommand::Alias(s("mia"))),
        vec![Effect::Publish(msg(MessageType::PublishAlias, "mia"))]
    );
    assert_eq!(
        m.handle_user_command(UserCommand::GetAlias),
        vec![Effect::Reply(Reply::Text(s("mia")))]
    );
    assert_eq!(
        m.handle_user_command(UserCommand::GetPeerId),
        vec![Effect::Reply(Reply::Text(s("me")))]
    );
    assert_eq!(
        m.handle_user_command(UserCommand::GetAliases),
        vec![Effect::Reply(Reply::Aliases(vec![]))]
    );
    assert_eq!(
        m.handle_user_command(UserCommand::GetConnected),
        vec![Effect::Reply(Reply::List(vec![]))]
    );
}

#[test]
fn upgrade_and_serve_commands() {
    let mut m = node("me");
    assert_eq!(
        m.handle_user_command(UserCommand::UpgradeSelf(s("1.2.3.4:9803"))),
        vec![Effect::UpgradeBinary(s("1.2.3.4:9803"))]
    );
    assert_eq!(
        m.handle_user_command(UserCommand::Upgrade(s(""), s("addr"))),
        vec![Effect::Publish(msg(MessageType::Upgrade, "addr"))]
    );
    assert_eq!(
        m.handle_user_command(UserCommand::Upgrade(s("p"), s("addr"))),
        vec![send("p", MessageType::Upgrade, "addr")]
    );
    assert_eq!(m.handle_user_command(UserCommand::Serve(s("/bin/x"))), vec![Effect::Serve(s("/bin/x"))]);
    assert_eq!(m.handle_user_command(UserCommand::ServeStop), vec![Effect::StopServing]);
}

#[test]
fn first_connection_announces_presence_and_bootstraps() {
    let mut m = node("me");
    m.handle_user_command(UserCommand::Alias(s("mia")));
    let effects = m.handle_network_event(NetworkEvent::ConnectionEstablished { peer: s("p") });
    assert_eq!(
        effects,
        vec![
            Effect::Pause(500),
            Effect::Publish(msg(MessageType::PeerConnected, "me")),
            send("p", MessageType::NetworkSolicitation, ""),
            send("p", MessageType::PublishAlias, "mia"),
            send("p", MessageType::NetworkBinaryVersion, "1.4.0"),
        ]
    );
    let effects = m.handle_network_event(NetworkEvent::ConnectionEstablished { peer: s("q") });
    assert_eq!(
        effects,
        vec![
            Effect::Pause(500),
            send("q", MessageType::PublishAlias, "mia"),
            send("q", MessageType::NetworkBinaryVersion, "1.4.0"),
        ]
    );
    assert_eq!(
        m.handle_user_command(UserCommand::GetConnected),
        vec![Effect::Reply(Reply::List(vec![s("p"), s("q")]))]
    );
}

#[test]
fn lifecycle_events_keep_the_peer_lists() {
    let mut m = Management::new(s("me"), None);
    m.handle_network_event(NetworkEvent::PeerDiscovered { peer: s("p") });
    m.handle_network_event(NetworkEvent::PeerDiscovered { peer: s("p") });
    m.handle_network_event(NetworkEvent::PeerDiscovered { peer: s("q") });
    m.handle_network_event(NetworkEvent::ConnectionRejected { peer: s("p") });
    assert_eq!(
        m.handle_user_command(UserCommand::GetDiscovered),
        vec![Effect::Reply(Reply::List(vec![s("p"), s("q")]))]
    );
    assert_eq!(
        m.handle_user_command(UserCommand::GetRejected),
        vec![Effect::Reply(Reply::List(vec![s("p")]))]
    );
    let effects = m.handle_network_event(NetworkEvent::ConnectionEstablished { peer: s("p") });
    assert_eq!(
        effects,
        vec![
            Effect::Pause(500),
            Effect::Publish(msg(MessageType::PeerConnected, "me")),
            send("p", MessageType::NetworkSolicitation, ""),
        ]
    );
    assert_eq!(
        m.handle_user_command(UserCommand::GetRejected),
        vec![Effect::Reply(Reply::List(vec![]))]
    );
    m.handle_network_event(NetworkEvent::ConnectionClosed { peer: s("p") });
    assert_eq!(
        m.handle_user_command(UserCommand::GetConnected),
        vec![Effect::Reply(Reply::List(vec![]))]
    );
    assert_eq!(
        m.handle_user_command(UserCommand::GetDiscovered),
        vec![Effect::Reply(Reply::List(vec![s("q")]))]
    );
    m.handle_network_event(NetworkEvent::PeerExpired { peer: s("q") });
    assert_eq!(
        m.handle_user_command(UserCommand::GetDiscovered),
        vec![Effect::Reply(Reply::List(vec![]))]
    );
}

#[test]
fn shutdown_announces_the_departure() {
    let m = node("me");
    assert_eq!(
        m.shutdown(),
        vec![Effect::Publish(msg(MessageType::PeerDisconnected, "me")), Effect::Pause(500)]
    );
}

#[test]
fn bytes_from_the_network_are_decoded_and_handled() {
    let mut m = node("me");
    let bytes = msg(MessageType::DisplayMessage, "hello").encode_to_vec();
    assert_eq!(m.network_receive(s("p"), &bytes), vec![Effect::Display(s("hello"))]);
    assert_eq!(m.network_receive(s("p"), &[0xff, 0xff]), vec![]);
}

#[test]
fn base64_text_is_decoded_and_handled() {
    let mut m = node("me");
    // 0x12 0x02 'h' 'i' is the display message "hi"
    assert_eq!(m.receive(s("p"), s("EgJoaQ==")), vec![Effect::Display(s("hi"))]);
    assert_eq!(m.receive(s("p"), s("not base64!")), vec![]);
    // valid base64 of bytes that are no message
    assert_eq!(m.receive(s("p"), s("/w==")), vec![]);
}
