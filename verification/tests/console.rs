use management::console::{handle_user_input, listen_host, parse_command, private_key_arg, Table};
use management::events::UserCommand;

fn s(x: &str) -> String {
    x.to_string()
}

#[test]
fn send_lines_become_messages() {
    assert_eq!(
        parse_command("send hello world"),
        Some(UserCommand::SendMsg { peer: None, message: s("hello world") })
    );
    assert_eq!(
        parse_command("sendto peer1 hello world"),
        Some(UserCommand::SendMsg { peer: Some(s("peer1")), message: s("hello world") })
    );
    assert_eq!(parse_command("send "), Some(UserCommand::SendMsg { peer: None, message: s("") }));
}

#[test]
fn sendto_without_a_message_is_no_command() {
    assert_eq!(parse_command("sendto peer1"), None);
    assert_eq!(parse_command("upgrade peer1"), None);
}

#[test]
fn one_word_commands_take_the_rest_of_the_line() {
    assert_eq!(parse_command("whitelist p q"), Some(UserCommand::Whitelist(s("p q"))));
    assert_eq!(parse_command("authorize p"), Some(UserCommand::Authorize(s("p"))));
    assert_eq!(parse_command("alias ünï ☃"), Some(UserCommand::Alias(s("ünï ☃"))));
    assert_eq!(parse_command("serve /tmp/bin"), Some(UserCommand::Serve(s("/tmp/bin"))));
}

#[test]
fn longer_command_words_win_over_their_prefixes() {
    assert_eq!(
        parse_command("upgrade self 1.2.3.4:9803"),
        Some(UserCommand::UpgradeSelf(s("1.2.3.4:9803")))
    );
    assert_eq!(
        parse_command("upgrade peer 1.2.3.4:9803"),
        Some(UserCommand::Upgrade(s("peer"), s("1.2.3.4:9803")))
    );
    assert_eq!(
        parse_command("upgrade  addr"),
        Some(UserCommand::Upgrade(s(""), s("addr")))
    );
    assert_eq!(parse_command("serve stop"), Some(UserCommand::ServeStop));
    assert_eq!(parse_command("serve stop now"), Some(UserCommand::ServeStop));
    assert_eq!(parse_command("serve stopped"), Some(UserCommand::ServeStop));
}

#[test]
fn show_names_a_query() {
    assert_eq!(parse_command("show alias"), Some(UserCommand::GetAlias));
    assert_eq!(parse_command("show aliases"), Some(UserCommand::GetAliases));
    assert_eq!(parse_command("show discovered"), Some(UserCommand::GetDiscovered));
    assert_eq!(parse_command("show connected"), Some(UserCommand::GetConnected));
    assert_eq!(parse_command("show rejected"), Some(UserCommand::GetRejected));
    assert_eq!(parse_command("show everything"), None);
    assert_eq!(parse_command("show alias "), None);
}

#[test]
fn other_lines_are_no_command() {
    assert_eq!(parse_command(""), None);
    assert_eq!(parse_command("send"), None);
    assert_eq!(parse_command("Send x"), None);
    assert_eq!(parse_command(" send x"), None);
}

#[test]
fn table_mode_collects_lines_until_an_empty_one() {
    let mut table = None;
    assert_eq!(handle_user_input(&mut table, s("table peer9")), None);
    assert_eq!(table, Some(Table { peer: Some(s("peer9")), message: s("") }));
    assert_eq!(handle_user_input(&mut table, s("first")), None);
    assert_eq!(handle_user_input(&mut table, s("send not a command here")), None);
    assert_eq!(
        handle_user_input(&mut table, s("")),
        Some(UserCommand::SendMsg {
            peer: Some(s("peer9")),
            message: s("first\nsend not a command here\n")
        })
    );
    assert_eq!(table, None);
    assert_eq!(
        handle_user_input(&mut table, s("send x")),
        Some(UserCommand::SendMsg { peer: None, message: s("x") })
    );
}

#[test]
fn table_without_a_peer_is_for_all() {
    let mut table = None;
    assert_eq!(handle_user_input(&mut table, s("table ")), None);
    assert_eq!(table, Some(Table { peer: None, message: s("") }));
    assert_eq!(
        handle_user_input(&mut table, s("")),
        Some(UserCommand::SendMsg { peer: None, message: s("") })
    );
}

#[test]
fn private_key_flag_is_found_among_the_arguments() {
    let args = |v: &[&str]| v.iter().map(|x| s(x)).collect::<Vec<String>>();
    assert_eq!(private_key_arg(&args(&["prog"])), None);
    assert_eq!(private_key_arg(&args(&["prog", "--private-key", "k.pem"])), Some(s("k.pem")));
    assert_eq!(private_key_arg(&args(&["prog", "--private-key"])), None);
    assert_eq!(
        private_key_arg(&args(&["prog", "--private-key", "a", "x", "--private-key", "b"])),
        Some(s("b"))
    );
    // the value of the flag is not read as a flag
    assert_eq!(
        private_key_arg(&args(&["--private-key", "--private-key", "c"])),
        Some(s("--private-key"))
    );
}

#[test]
fn listen_host_is_the_third_field() {
    assert_eq!(listen_host("/ip4/10.0.0.1/tcp/4001"), Some(s("10.0.0.1")));
    assert_eq!(listen_host("/ip4/10.0.0.1"), Some(s("10.0.0.1")));
    assert_eq!(listen_host("/ip4"), None);
    assert_eq!(listen_host("a/b//d"), Some(s("")));
    assert_eq!(listen_host(""), None);
}
