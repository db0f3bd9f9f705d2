use miniredis::command::{
    parse_command, Command, EchoCommand, GetCommand, InfoCommand, InfoSection, PSyncCommand,
    PingCommand, ReplConfCommand, ReplConfig, SetCommand,
};
use miniredis::message::Message;

fn bulk(s: &str) -> Message {
    Message::bulk_string(s.as_bytes().to_vec())
}

fn cmd(parts: &[&str]) -> Message {
    Message::array(parts.iter().map(|p| bulk(p)).collect())
}

#[test]
fn parse_ping_without_message() {
    let c = parse_command(&cmd(&["PING"])).unwrap();
    assert_eq!(c, Command::Ping(PingCommand { message: None }));
}

#[test]
fn parse_ping_with_message() {
    let c = parse_command(&cmd(&["PING", "hi"])).unwrap();
    assert_eq!(c, Command::Ping(PingCommand { message: Some(b"hi".to_vec()) }));
}

#[test]
fn parse_verb_is_case_insensitive() {
    let c = parse_command(&cmd(&["PiNg"])).unwrap();
    assert_eq!(c, Command::Ping(PingCommand { message: None }));
}

#[test]
fn parse_echo() {
    let c = parse_command(&cmd(&["echo", "hey"])).unwrap();
    assert_eq!(c, Command::Echo(EchoCommand { message: b"hey".to_vec() }));
}

#[test]
fn parse_echo_requires_message() {
    assert!(parse_command(&cmd(&["ECHO"])).is_err());
}

#[test]
fn parse_get() {
    let c = parse_command(&cmd(&["GET", "foo"])).unwrap();
    assert_eq!(c, Command::Get(GetCommand { key: b"foo".to_vec() }));
}

#[test]
fn parse_set_without_options() {
    let c = parse_command(&cmd(&["SET", "foo", "bar"])).unwrap();
    assert_eq!(
        c,
        Command::SetKey(SetCommand {
            key: b"foo".to_vec(),
            value: b"bar".to_vec(),
            expiration: None,
        })
    );
}

#[test]
fn parse_set_with_px() {
    let c = parse_command(&cmd(&["SET", "k", "v", "PX", "100"])).unwrap();
    assert_eq!(
        c,
        Command::SetKey(SetCommand {
            key: b"k".to_vec(),
            value: b"v".to_vec(),
            expiration: Some(100),
        })
    );
}

#[test]
fn parse_set_px_option_name_is_case_insensitive() {
    let c = parse_command(&cmd(&["SET", "k", "v", "px", "7"])).unwrap();
    assert_eq!(
        c,
        Command::SetKey(SetCommand {
            key: b"k".to_vec(),
            value: b"v".to_vec(),
            expiration: Some(7),
        })
    );
}

#[test]
fn parse_set_rejects_non_numeric_px() {
    assert!(parse_command(&cmd(&["SET", "k", "v", "PX", "soon"])).is_err());
}

#[test]
fn parse_set_requires_value() {
    assert!(parse_command(&cmd(&["SET", "k"])).is_err());
}

#[test]
fn parse_info_sections() {
    let c = parse_command(&cmd(&["INFO", "server"])).unwrap();
    assert_eq!(c, Command::Info(InfoCommand { sections: vec![InfoSection::Server] }));
}

#[test]
fn parse_info_drops_duplicate_sections() {
    let c = parse_command(&cmd(&["INFO", "replication", "server", "replication"])).unwrap();
    assert_eq!(
        c,
        Command::Info(InfoCommand {
            sections: vec![InfoSection::Replication, InfoSection::Server],
        })
    );
}

#[test]
fn parse_info_rejects_unknown_section() {
    assert!(parse_command(&cmd(&["INFO", "keyspace"])).is_err());
}

#[test]
fn info_section_parse_vocabulary() {
    assert_eq!(InfoSection::parse(&b"default".to_vec()).unwrap(), InfoSection::Default);
    assert_eq!(InfoSection::parse(&b"server".to_vec()).unwrap(), InfoSection::Server);
    assert_eq!(
        InfoSection::parse(&b"replication".to_vec()).unwrap(),
        InfoSection::Replication
    );
    assert!(InfoSection::parse(&b"cluster".to_vec()).is_err());
}

#[test]
fn parse_replconf_listening_port() {
    let c = parse_command(&cmd(&["REPLCONF", "listening-port", "6380"])).unwrap();
    assert_eq!(
        c,
        Command::ReplConf(ReplConfCommand { config: ReplConfig::ListeningPort(6380) })
    );
}

#[test]
fn parse_replconf_capa() {
    let c = parse_command(&cmd(&["REPLCONF", "capa", "psync2"])).unwrap();
    assert_eq!(
        c,
        Command::ReplConf(ReplConfCommand {
            config: ReplConfig::Capabilities(b"psync2".to_vec()),
        })
    );
}

#[test]
fn parse_replconf_rejects_unknown_option() {
    assert!(parse_command(&cmd(&["REPLCONF", "getack", "*"])).is_err());
}

#[test]
fn parse_replconf_rejects_bad_port() {
    assert!(parse_command(&cmd(&["REPLCONF", "listening-port", "70000"])).is_err());
    assert!(parse_command(&cmd(&["REPLCONF", "listening-port", "abc"])).is_err());
}

#[test]
fn parse_psync() {
    let c = parse_command(&cmd(&["PSYNC", "?", "-1"])).unwrap();
    assert_eq!(
        c,
        Command::PSync(PSyncCommand { replication_id: b"?".to_vec(), offset: -1 })
    );
}

#[test]
fn parse_psync_rejects_non_numeric_offset() {
    assert!(parse_command(&cmd(&["PSYNC", "?", "later"])).is_err());
}

#[test]
fn parse_rejects_unknown_verb() {
    assert!(parse_command(&cmd(&["FLUSHALL"])).is_err());
}

#[test]
fn parse_rejects_empty_array() {
    assert!(parse_command(&cmd(&[])).is_err());
}

#[test]
fn parse_rejects_non_array() {
    assert!(parse_command(&bulk("PING")).is_err());
}

#[test]
fn parse_rejects_non_bulk_element() {
    let m = Message::array(vec![Message::simple_string(b"PING".to_vec())]);
    assert!(parse_command(&m).is_err());
}

#[test]
fn to_message_ping() {
    let m = PingCommand::new_command(None).to_message();
    assert_eq!(m.serialize(), b"*1\r\n$4\r\nPING\r\n".to_vec());
}

#[test]
fn to_message_set_with_px() {
    let m = SetCommand::new_command(b"k".to_vec(), b"v".to_vec(), Some(250)).to_message();
    assert_eq!(m, cmd(&["SET", "k", "v", "PX", "250"]));
}

#[test]
fn to_message_replconf_commands() {
    let m = ReplConfCommand::new_listening_port_command(6380).to_message();
    assert_eq!(m, cmd(&["REPLCONF", "listening-port", "6380"]));
    let m = ReplConfCommand::new_capabilities_command().to_message();
    assert_eq!(m, cmd(&["REPLCONF", "capa", "psync2"]));
}

#[test]
fn to_message_psync() {
    let m = PSyncCommand::new_command(b"?".to_vec(), -1).to_message();
    assert_eq!(m, cmd(&["PSYNC", "?", "-1"]));
}

#[test]
fn rendered_command_reparses_identically() {
    let original = Command::SetKey(SetCommand {
        key: b"foo".to_vec(),
        value: b"bar".to_vec(),
        expiration: Some(9999),
    });
    let wire = original.to_message();
    let back = parse_command(&wire).unwrap();
    assert_eq!(back, original);
}

#[test]
fn rendered_psync_reparses_identically() {
    let original = Command::PSync(PSyncCommand {
        replication_id: b"deadbeef".to_vec(),
        offset: -1,
    });
    let back = parse_command(&original.to_message()).unwrap();
    assert_eq!(back, original);
}

#[test]
fn parse_set_last_px_occurrence_wins() {
    let c = parse_command(&cmd(&["SET", "k", "v", "PX", "5", "PX", "9"])).unwrap();
    assert_eq!(
        c,
        Command::SetKey(SetCommand {
            key: b"k".to_vec(),
            value: b"v".to_vec(),
            expiration: Some(9),
        })
    );
}

#[test]
fn parse_set_ignores_unrecognized_trailing_arguments() {
    let c = parse_command(&cmd(&["SET", "k", "v", "XX"])).unwrap();
    assert_eq!(
        c,
        Command::SetKey(SetCommand {
            key: b"k".to_vec(),
            value: b"v".to_vec(),
            expiration: None,
        })
    );
}

#[test]
fn parse_set_rejects_bad_px_even_after_a_good_one() {
    assert!(parse_command(&cmd(&["SET", "k", "v", "PX", "5", "PX", "soon"])).is_err());
}

#[test]
fn parse_replconf_sub_option_is_case_sensitive() {
    assert!(parse_command(&cmd(&["REPLCONF", "LISTENING-PORT", "6380"])).is_err());
}

#[test]
fn parse_psync_accepts_positive_offset() {
    let c = parse_command(&cmd(&["PSYNC", "abc", "42"])).unwrap();
    assert_eq!(
        c,
        Command::PSync(PSyncCommand { replication_id: b"abc".to_vec(), offset: 42 })
    );
}
