use base64::Engine;
use miniredis::command::{parse_command, Command, InfoCommand, InfoSection, SetCommand};
use miniredis::message::Message;
use miniredis::replication::{
    execute, frame_snapshot, fullresync_reply, resolve_sections, stage_advance, stage_request,
    HandshakeStage, Outcome, Role, EMPTY_RDB_B64,
};
use miniredis::store::{Entry, Store};

fn wire(bytes: &[u8]) -> Message {
    Message::deserialize(&bytes.to_vec(), 0).unwrap().0
}

fn run(store: &mut Store, role: &Role, now: u128, input: &[u8]) -> Result<Outcome, miniredis::command::CommandError> {
    let cmd = parse_command(&wire(input)).unwrap();
    execute(&cmd, store, role, now)
}

fn reply_bytes(outcome: Outcome) -> Vec<u8> {
    match outcome {
        Outcome::Reply(m) => m.serialize(),
        Outcome::Write { reply, .. } => reply.serialize(),
        other => panic!("expected a plain reply, got {:?}", other),
    }
}

#[test]
fn ping_replies_pong() {
    let mut store = Store::new();
    let role = Role::new_master();
    let out = run(&mut store, &role, 0, b"*1\r\n$4\r\nPING\r\n").unwrap();
    assert_eq!(reply_bytes(out), b"+PONG\r\n".to_vec());
}

#[test]
fn ping_with_message_echoes_it() {
    let mut store = Store::new();
    let role = Role::new_master();
    let out = run(&mut store, &role, 0, b"*2\r\n$4\r\nPING\r\n$2\r\nhi\r\n").unwrap();
    assert_eq!(reply_bytes(out), b"+hi\r\n".to_vec());
}

#[test]
fn echo_replies_message() {
    let mut store = Store::new();
    let role = Role::new_master();
    let out = run(&mut store, &role, 0, b"*2\r\n$4\r\nECHO\r\n$3\r\nhey\r\n").unwrap();
    assert_eq!(reply_bytes(out), b"+hey\r\n".to_vec());
}

#[test]
fn set_then_get() {
    let mut store = Store::new();
    let role = Role::new_master();
    let out = run(&mut store, &role, 0, b"*3\r\n$3\r\nSET\r\n$3\r\nfoo\r\n$3\r\nbar\r\n").unwrap();
    assert_eq!(reply_bytes(out), b"+OK\r\n".to_vec());
    let out = run(&mut store, &role, 1, b"*2\r\n$3\r\nGET\r\n$3\r\nfoo\r\n").unwrap();
    assert_eq!(reply_bytes(out), b"$3\r\nbar\r\n".to_vec());
}

#[test]
fn get_absent_key_is_null() {
    let mut store = Store::new();
    let role = Role::new_master();
    let out = run(&mut store, &role, 0, b"*2\r\n$3\r\nGET\r\n$7\r\nmissing\r\n").unwrap();
    assert_eq!(reply_bytes(out), b"$-1\r\n".to_vec());
}

#[test]
fn set_with_px_expires_after_deadline() {
    let mut store = Store::new();
    let role = Role::new_master();
    run(&mut store, &role, 1000, b"*5\r\n$3\r\nSET\r\n$1\r\nk\r\n$1\r\nv\r\n$2\r\nPX\r\n$3\r\n100\r\n")
        .unwrap();
    // immediately readable, and readable right up to the deadline
    let out = run(&mut store, &role, 1000, b"*2\r\n$3\r\nGET\r\n$1\r\nk\r\n").unwrap();
    assert_eq!(reply_bytes(out), b"$1\r\nv\r\n".to_vec());
    let out = run(&mut store, &role, 1100, b"*2\r\n$3\r\nGET\r\n$1\r\nk\r\n").unwrap();
    assert_eq!(reply_bytes(out), b"$1\r\nv\r\n".to_vec());
    // past the deadline it reads as absent
    let out = run(&mut store, &role, 1101, b"*2\r\n$3\r\nGET\r\n$1\r\nk\r\n").unwrap();
    assert_eq!(reply_bytes(out), b"$-1\r\n".to_vec());
}

#[test]
fn overwrite_leaves_exactly_the_later_value() {
    let mut store = Store::new();
    store.insert_key(b"k".to_vec(), Entry::new(b"first".to_vec(), None, 0));
    store.insert_key(b"k".to_vec(), Entry::new(b"second".to_vec(), None, 0));
    let got = store.get_key(&b"k".to_vec(), 0).unwrap();
    assert_eq!(got.value, b"second".to_vec());
}

#[test]
fn sweep_removes_expired_entry_without_a_read() {
    let mut store = Store::new();
    store.insert_key(b"gone".to_vec(), Entry::new(b"v".to_vec(), Some(1), 0));
    store.insert_key(b"kept".to_vec(), Entry::new(b"w".to_vec(), None, 0));
    store.sweep(2);
    assert!(store.get_key(&b"gone".to_vec(), 2).is_none());
    assert_eq!(store.get_key(&b"kept".to_vec(), 2).unwrap().value, b"w".to_vec());
}

#[test]
fn entry_ttl_bookkeeping() {
    let e = Entry::new(b"v".to_vec(), Some(5), 100);
    assert!(e.has_ttl());
    assert!(!e.is_expired(105));
    assert!(e.is_expired(106));
    let forever = Entry::new(b"v".to_vec(), None, 100);
    assert!(!forever.has_ttl());
    assert!(!forever.is_expired(u128::MAX));
}

#[test]
fn set_on_master_propagates_its_own_wire_form() {
    let mut store = Store::new();
    let role = Role::new_master();
    let out = run(&mut store, &role, 0, b"*3\r\n$3\r\nSET\r\n$3\r\nfoo\r\n$3\r\nbar\r\n").unwrap();
    match out {
        Outcome::Write { reply, propagate } => {
            assert_eq!(reply.serialize(), b"+OK\r\n".to_vec());
            let expected =
                SetCommand::new_command(b"foo".to_vec(), b"bar".to_vec(), None).to_message();
            assert_eq!(propagate, expected);
            // a replica re-parses the propagated frame to the identical command
            let back = parse_command(&propagate).unwrap();
            assert_eq!(
                back,
                Command::SetKey(SetCommand {
                    key: b"foo".to_vec(),
                    value: b"bar".to_vec(),
                    expiration: None,
                })
            );
        },
        other => panic!("expected a write outcome, got {:?}", other),
    }
}

#[test]
fn set_on_replica_does_not_propagate() {
    let mut store = Store::new();
    let role = Role::new_replica(b"127.0.0.1:6379".to_vec());
    let out = run(&mut store, &role, 0, b"*3\r\n$3\r\nSET\r\n$1\r\nk\r\n$1\r\nv\r\n").unwrap();
    assert_eq!(reply_bytes(out), b"+OK\r\n".to_vec());
    assert_eq!(store.get_key(&b"k".to_vec(), 0).unwrap().value, b"v".to_vec());
}

#[test]
fn replconf_on_master_replies_ok() {
    let mut store = Store::new();
    let role = Role::new_master();
    let out = run(
        &mut store,
        &role,
        0,
        b"*3\r\n$8\r\nREPLCONF\r\n$14\r\nlistening-port\r\n$4\r\n6380\r\n",
    )
    .unwrap();
    assert_eq!(reply_bytes(out), b"+OK\r\n".to_vec());
}

#[test]
fn replconf_and_psync_rejected_on_replica() {
    let mut store = Store::new();
    let role = Role::new_replica(b"127.0.0.1:6379".to_vec());
    assert!(run(&mut store, &role, 0, b"*3\r\n$8\r\nREPLCONF\r\n$4\r\ncapa\r\n$6\r\npsync2\r\n")
        .is_err());
    assert!(run(&mut store, &role, 0, b"*3\r\n$5\r\nPSYNC\r\n$1\r\n?\r\n$2\r\n-1\r\n").is_err());
}

#[test]
fn psync_on_master_yields_fullresync_and_snapshot() {
    let mut store = Store::new();
    let role = Role::new_master();
    let out = run(&mut store, &role, 0, b"*3\r\n$5\r\nPSYNC\r\n$1\r\n?\r\n$2\r\n-1\r\n").unwrap();
    match out {
        Outcome::FullResync { reply, snapshot } => {
            assert_eq!(
                reply.serialize(),
                b"+FULLRESYNC 8371b4fb1155b71f4a04d3e1bc3e18c4a990aeeb 0\r\n".to_vec()
            );
            // the snapshot frame is `$`, the payload length, CRLF, payload
            let payload = base64::engine::general_purpose::STANDARD
                .decode(EMPTY_RDB_B64)
                .unwrap();
            // the decoded payload is a real RDB image, not the base64 text
            assert_eq!(&payload[0..5], b"REDIS");
            let mut expected = format!("${}\r\n", payload.len()).into_bytes();
            expected.extend_from_slice(&payload);
            assert_eq!(snapshot, expected);
            // the length field reads back in full
            let header_end = snapshot.iter().position(|&b| b == b'\n').unwrap() + 1;
            let (len, p) = miniredis::message::parse_size(&snapshot, 1).unwrap();
            assert_eq!(p, header_end);
            assert_eq!(snapshot.len() - header_end, len);
        },
        other => panic!("expected a full resync, got {:?}", other),
    }
}

#[test]
fn frame_snapshot_prefixes_payload_length() {
    let framed = frame_snapshot(&b"abc".to_vec());
    assert_eq!(framed, b"$3\r\nabc".to_vec());
}

#[test]
fn fullresync_reply_spells_id_and_offset() {
    let m = fullresync_reply(&b"cafe".to_vec(), 42);
    assert_eq!(m.serialize(), b"+FULLRESYNC cafe 42\r\n".to_vec());
}

#[test]
fn info_resolves_empty_and_default_to_all_sections() {
    let all = vec![InfoSection::Server, InfoSection::Replication];
    assert_eq!(resolve_sections(&InfoCommand { sections: vec![] }), all);
    assert_eq!(resolve_sections(&InfoCommand { sections: vec![InfoSection::Default] }), all);
    assert_eq!(
        resolve_sections(&InfoCommand { sections: vec![InfoSection::Replication] }),
        vec![InfoSection::Replication]
    );
}

#[test]
fn info_outcome_carries_resolved_sections() {
    let mut store = Store::new();
    let role = Role::new_master();
    let out = run(&mut store, &role, 0, b"*1\r\n$4\r\nINFO\r\n").unwrap();
    match out {
        Outcome::Info { sections } => {
            assert_eq!(sections, vec![InfoSection::Server, InfoSection::Replication]);
        },
        other => panic!("expected an info outcome, got {:?}", other),
    }
}

#[test]
fn handshake_requests_in_order() {
    let m = stage_request(&HandshakeStage::Ping, 6380).unwrap();
    assert_eq!(m.serialize(), b"*1\r\n$4\r\nPING\r\n".to_vec());
    let m = stage_request(&HandshakeStage::ListeningPort, 6380).unwrap();
    assert_eq!(
        m.serialize(),
        b"*3\r\n$8\r\nREPLCONF\r\n$14\r\nlistening-port\r\n$4\r\n6380\r\n".to_vec()
    );
    let m = stage_request(&HandshakeStage::Capabilities, 6380).unwrap();
    assert_eq!(m.serialize(), b"*3\r\n$8\r\nREPLCONF\r\n$4\r\ncapa\r\n$6\r\npsync2\r\n".to_vec());
    let m = stage_request(&HandshakeStage::PSync, 6380).unwrap();
    assert_eq!(m.serialize(), b"*3\r\n$5\r\nPSYNC\r\n$1\r\n?\r\n$2\r\n-1\r\n".to_vec());
    assert!(stage_request(&HandshakeStage::Done, 6380).is_none());
}

#[test]
fn handshake_advances_on_expected_replies() {
    let pong = wire(b"+PONG\r\n");
    let ok = wire(b"+OK\r\n");
    let fullresync = wire(b"+FULLRESYNC 8371b4fb1155b71f4a04d3e1bc3e18c4a990aeeb 0\r\n");
    let s = stage_advance(&HandshakeStage::Ping, &pong).unwrap();
    assert_eq!(s, HandshakeStage::ListeningPort);
    let s = stage_advance(&s, &ok).unwrap();
    assert_eq!(s, HandshakeStage::Capabilities);
    let s = stage_advance(&s, &ok).unwrap();
    assert_eq!(s, HandshakeStage::PSync);
    let s = stage_advance(&s, &fullresync).unwrap();
    assert_eq!(s, HandshakeStage::Done);
}

#[test]
fn handshake_fails_on_unexpected_reply() {
    let ok = wire(b"+OK\r\n");
    let pong = wire(b"+PONG\r\n");
    assert!(stage_advance(&HandshakeStage::Ping, &ok).is_err());
    assert!(stage_advance(&HandshakeStage::ListeningPort, &pong).is_err());
    assert!(stage_advance(&HandshakeStage::PSync, &ok).is_err());
    let bulk = wire(b"$4\r\nPONG\r\n");
    assert!(stage_advance(&HandshakeStage::Ping, &bulk).is_err());
}
