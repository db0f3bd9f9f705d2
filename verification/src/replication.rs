//! The replication coordinator and command execution.
//!
//! The role is fixed at process start: a master holds its replication
//! id and offset and fans applied writes out to its subscribers; a
//! replica holds its master's address and runs a strict five-step
//! handshake before ingesting the propagated stream. `execute` maps
//! one parsed command to its reply, its keyspace effect, and the
//! action the connection must take — propagation and subscription
//! themselves are the surrounding process's transport.

use vstd::prelude::*;
use crate::bytes::{bytes_eq, clone_bytes};
use crate::command::{
    Command, CommandV, CommandError, InfoCommand, InfoSection, PingCommand, PSyncCommand,
    ReplConfCommand, ReplConfigV, spec_to_wire, tok_psync2,
};
use crate::digits::{dec_digits, format_u128};
use crate::message::{
    Message, WireVal, crlf, spec_parse_size, lemma_parse_size_of_digits, lemma_cat4_index, CR, LF,
    DOLLAR,
};
use crate::store::{Entry, EntryV, Store, spec_lookup, spec_expired};

verus! {

/// The space separating the words of a `FULLRESYNC` line.
pub const SPACE: u8 = 32;

/// The reply `PONG`.
pub open spec fn tok_pong() -> Seq<u8> {
    seq!['P' as u8, 'O' as u8, 'N' as u8, 'G' as u8]
}

/// The reply `OK`.
pub open spec fn tok_ok() -> Seq<u8> {
    seq!['O' as u8, 'K' as u8]
}

/// The reply word `FULLRESYNC`.
pub open spec fn tok_fullresync() -> Seq<u8> {
    seq![
        'F' as u8,
        'U' as u8,
        'L' as u8,
        'L' as u8,
        'R' as u8,
        'E' as u8,
        'S' as u8,
        'Y' as u8,
        'N' as u8,
        'C' as u8,
    ]
}

/// The unknown-master id `?` a fresh replica sends in `PSYNC`.
pub open spec fn tok_unknown_id() -> Seq<u8> {
    seq!['?' as u8]
}

/// Builds `PONG`.
fn tok_pong_vec() -> (r: Vec<u8>)
    ensures
        r@ == tok_pong(),
{
    let v = vec![('P' as u8), ('O' as u8), ('N' as u8), ('G' as u8)];
    proof {
        assert(v@ =~= tok_pong());
    }
    v
}

/// Builds `FULLRESYNC`.
fn tok_fullresync_vec() -> (r: Vec<u8>)
    ensures
        r@ == tok_fullresync(),
{
    let v = vec![
        ('F' as u8),
        ('U' as u8),
        ('L' as u8),
        ('L' as u8),
        ('R' as u8),
        ('E' as u8),
        ('S' as u8),
        ('Y' as u8),
        ('N' as u8),
        ('C' as u8),
    ];
    proof {
        assert(v@ =~= tok_fullresync());
    }
    v
}

/// The process role, fixed for the process lifetime: no promotion or
/// demotion ever happens.
#[derive(Debug, Clone, PartialEq, Eq)]
pub enum Role {
    Master { replication_id: Vec<u8>, replication_offset: usize },
    Replica { master_address: Vec<u8> },
}

/// What executing one command asks of the connection, beyond sending
/// the reply.
#[derive(Debug, PartialEq, Eq)]
pub enum Outcome {
    /// Send the reply; nothing else.
    Reply(Message),
    /// A write was applied: send the reply, and publish the propagated
    /// command to every current subscriber, in publish order.
    Write { reply: Message, propagate: Message },
    /// Render the requested informational sections and send them as
    /// one Bulk String.
    Info { sections: Vec<InfoSection> },
    /// Send the reply, then the snapshot frame, then subscribe this
    /// connection to the fan-out stream.
    FullResync { reply: Message, snapshot: Vec<u8> },
}

/// The sections an `INFO` reply must render: an empty request, or one
/// naming `default`, means all of them.
pub open spec fn spec_resolve_sections(secs: Seq<InfoSection>) -> Seq<InfoSection> {
    if secs.len() == 0 || secs.contains(InfoSection::Default) {
        seq![InfoSection::Server, InfoSection::Replication]
    } else {
        secs
    }
}

/// Resolves the sections of an `INFO` request.
pub fn resolve_sections(cmd: &InfoCommand) -> (r: Vec<InfoSection>)
    ensures
        r@ == spec_resolve_sections(cmd.sections@),
{
    let mut has_default = false;
    let mut i: usize = 0;
    while i < cmd.sections.len()
        invariant
            i <= cmd.sections@.len(),
            has_default == exists|j: int|
                0 <= j < i && cmd.sections@[j] == InfoSection::Default,
        decreases cmd.sections@.len() - i,
    {
        if cmd.sections[i] == InfoSection::Default {
            has_default = true;
        }
        i = i + 1;
    }
    if cmd.sections.len() == 0 || has_default {
        let r = vec![InfoSection::Server, InfoSection::Replication];
        proof {
            assert(cmd.sections@.contains(InfoSection::Default) == has_default);
            assert(r@ =~= spec_resolve_sections(cmd.sections@));
        }
        r
    } else {
        let mut r: Vec<InfoSection> = Vec::new();
        let mut i: usize = 0;
        while i < cmd.sections.len()
            invariant
                i <= cmd.sections@.len(),
                r@ == cmd.sections@.take(i as int),
            decreases cmd.sections@.len() - i,
        {
            r.push(cmd.sections[i]);
            assert(cmd.sections@.take(i + 1) =~= cmd.sections@.take(i as int).push(
                cmd.sections@[i as int],
            ));
            i = i + 1;
        }
        proof {
            assert(cmd.sections@.contains(InfoSection::Default) == has_default);
            assert(cmd.sections@.take(cmd.sections@.len() as int) =~= cmd.sections@);
        }
        r
    }
}

/// The content of the `FULLRESYNC` status line.
pub open spec fn spec_fullresync_line(id: Seq<u8>, offset: nat) -> Seq<u8> {
    tok_fullresync() + seq![SPACE] + id + seq![SPACE] + dec_digits(offset)
}

/// Builds the `FULLRESYNC <id> <offset>` status reply.
pub fn fullresync_reply(replication_id: &Vec<u8>, offset: usize) -> (m: Message)
    ensures
        m@ == WireVal::SimpleString(spec_fullresync_line(replication_id@, offset as nat)),
{
    let mut data = tok_fullresync_vec();
    data.push(SPACE);
    let mut id = clone_bytes(replication_id);
    data.append(&mut id);
    data.push(SPACE);
    let mut digs = format_u128(offset as u128);
    data.append(&mut digs);
    proof {
        assert(data@ =~= spec_fullresync_line(replication_id@, offset as nat));
    }
    Message::simple_string(data)
}

/// The length-prefixed snapshot frame: `$`, the payload's byte length
/// in decimal, CRLF, then the raw payload with no trailing CRLF.
pub open spec fn spec_snapshot_frame(payload: Seq<u8>) -> Seq<u8> {
    seq![DOLLAR] + dec_digits(payload.len()) + crlf() + payload
}

/// Frames a snapshot payload for the wire.
pub fn frame_snapshot(payload: &Vec<u8>) -> (r: Vec<u8>)
    requires
        payload@.len() + 64 <= usize::MAX,
    ensures
        r@ == spec_snapshot_frame(payload@),
{
    let mut r: Vec<u8> = Vec::new();
    r.push(DOLLAR);
    let mut digs = format_u128(payload.len() as u128);
    proof {
        crate::digits::lemma_dec_digits_shape(payload@.len() as nat);
    }
    r.append(&mut digs);
    r.push(CR);
    r.push(LF);
    let mut body = clone_bytes(payload);
    r.append(&mut body);
    proof {
        assert(r@ =~= spec_snapshot_frame(payload@));
    }
    r
}

/// The snapshot frame is a well-formed length-prefixed payload: the
/// size field after the `$` marker parses back to exactly the payload
/// length, and exactly that many payload bytes follow the terminator,
/// so a reader can consume it in full.
pub proof fn lemma_snapshot_frame_well_formed(payload: Seq<u8>)
    ensures
        spec_snapshot_frame(payload)[0] == DOLLAR,
        spec_parse_size(spec_snapshot_frame(payload), 1) == Some(
            (payload.len(), 3 + dec_digits(payload.len()).len() as int),
        ),
        spec_snapshot_frame(payload).len() == 3 + dec_digits(payload.len()).len()
            + payload.len(),
        spec_snapshot_frame(payload).skip(3 + dec_digits(payload.len()).len() as int)
            == payload,
{
    let s = spec_snapshot_frame(payload);
    let dd = dec_digits(payload.len());
    lemma_cat4_index(seq![DOLLAR], dd, crlf(), payload);
    crate::digits::lemma_dec_digits_shape(payload.len());
    assert(s.subrange(1, 1 + dd.len() as int) =~= dd);
    assert(s[1 + dd.len() as int] == CR);
    assert(s[2 + dd.len() as int] == LF);
    lemma_parse_size_of_digits(s, 1, payload.len());
    assert(s.skip(3 + dd.len() as int) =~= payload);
}

/// The text whose base64 decoding is the fixed empty-keyspace
/// snapshot sent to a freshly attached replica.
pub open spec fn empty_rdb_text() -> Seq<char> {
    EMPTY_RDB_B64@
}

pub const EMPTY_RDB_B64: &'static str = "UkVESVMwMDEx+glyZWRpcy12ZXIFNy4yLjD6CnJlZGlzLWJpdHPAQPoFY3RpbWXCbQi8ZfoIdXNlZC1tZW3CsMQQAPoIYW9mLWJhc2XAAP/wbjv+wP9aog==";

/// The bytes that standard base64 decoding yields for `s`, whatever
/// they are.
pub uninterp spec fn b64_decode_of(s: Seq<char>) -> Seq<u8>;

/// Decodes the fixed empty-keyspace snapshot payload.
///
/// Relies on base64's `Engine::decode` with the fixed `STANDARD`
/// engine: the decoded bytes are a function of the input text alone;
/// the snapshot text is well-formed standard base64, which `decode`
/// accepts; and the decoded payload is no longer than the text it was
/// decoded from.
#[verifier::external_body]
fn empty_snapshot() -> (r: Vec<u8>)
    ensures
        r@ == b64_decode_of(empty_rdb_text()),
        r@.len() <= 120,
{
    base64::Engine::decode(&base64::engine::general_purpose::STANDARD, EMPTY_RDB_B64)
        .expect("the fixed snapshot text is well-formed base64")
}


/// The fixed replication identifier this design gives a master: an
/// opaque hex token, never rotated.
pub open spec fn master_replication_id() -> Seq<u8> {
    seq![
        '8' as u8,
        '3' as u8,
        '7' as u8,
        '1' as u8,
        'b' as u8,
        '4' as u8,
        'f' as u8,
        'b' as u8,
        '1' as u8,
        '1' as u8,
        '5' as u8,
        '5' as u8,
        'b' as u8,
        '7' as u8,
        '1' as u8,
        'f' as u8,
        '4' as u8,
        'a' as u8,
        '0' as u8,
        '4' as u8,
        'd' as u8,
        '3' as u8,
        'e' as u8,
        '1' as u8,
        'b' as u8,
        'c' as u8,
        '3' as u8,
        'e' as u8,
        '1' as u8,
        '8' as u8,
        'c' as u8,
        '4' as u8,
        'a' as u8,
        '9' as u8,
        '9' as u8,
        '0' as u8,
        'a' as u8,
        'e' as u8,
        'e' as u8,
        'b' as u8,
    ]
}

impl Role {
    /// A fresh master: the fixed replication id, offset zero. The
    /// offset is carried on the wire but never incremented in this
    /// design.
    pub fn new_master() -> (r: Role)
        ensures
            r matches Role::Master { replication_id, replication_offset }
                && replication_id@ == master_replication_id() && replication_offset == 0,
    {
        let id = vec![('8' as u8), ('3' as u8), ('7' as u8), ('1' as u8), ('b' as u8), ('4' as u8), ('f' as u8), ('b' as u8), ('1' as u8), ('1' as u8), ('5' as u8), ('5' as u8), ('b' as u8), ('7' as u8), ('1' as u8), ('f' as u8), ('4' as u8), ('a' as u8), ('0' as u8), ('4' as u8), ('d' as u8), ('3' as u8), ('e' as u8), ('1' as u8), ('b' as u8), ('c' as u8), ('3' as u8), ('e' as u8), ('1' as u8), ('8' as u8), ('c' as u8), ('4' as u8), ('a' as u8), ('9' as u8), ('9' as u8), ('0' as u8), ('a' as u8), ('e' as u8), ('e' as u8), ('b' as u8)];
        proof {
            assert(id@ =~= master_replication_id());
        }
        Role::Master { replication_id: id, replication_offset: 0 }
    }

    /// A replica of the master at the given address.
    pub fn new_replica(master_address: Vec<u8>) -> (r: Role)
        ensures
            r matches Role::Replica { master_address: a } && a == master_address,
    {
        Role::Replica { master_address }
    }
}

/// The entry a `SET` at time `now` stores.
pub open spec fn spec_new_entry(value: Seq<u8>, expiration: Option<u128>, now: u128) -> EntryV {
    EntryV {
        value,
        ttl: match expiration {
            Some(e) => Some((now + e) as u128),
            None => None,
        },
    }
}

/// Executes one parsed command against the keyspace under the given
/// role at time `now`, yielding the reply and what else the connection
/// must do. A command-scoped error is returned — and the keyspace left
/// unchanged — exactly for `REPLCONF` or `PSYNC` handled by a replica
/// (also when they arrive over the inbound master link); a master
/// always answers `PSYNC` with the full-resync outcome.
pub fn execute(cmd: &Command, store: &mut Store, role: &Role, now: u128) -> (r: Result<
    Outcome,
    CommandError,
>)
    requires
        old(store).wf(),
        cmd@ matches CommandV::SetKey { expiration: Some(e), .. } ==> now + e <= u128::MAX,
    ensures
        final(store).wf(),
        cmd@ matches CommandV::Ping(m)
            ==> final(store)@ == old(store)@
            && (r matches Ok(Outcome::Reply(msg))
                && msg@ == WireVal::SimpleString(if m is Some { m->0 } else { tok_pong() })),
        cmd@ matches CommandV::Echo(m)
            ==> final(store)@ == old(store)@
            && (r matches Ok(Outcome::Reply(msg)) && msg@ == WireVal::SimpleString(m)),
        cmd@ matches CommandV::Get(k)
            ==> (r matches Ok(Outcome::Reply(msg))
                && msg@ == (match spec_lookup(old(store)@, k, now) {
                    Some(e) => WireVal::BulkString(e.value),
                    None => WireVal::NullBulkString,
                }))
            && (if old(store)@.contains_key(k) && spec_expired(old(store)@[k], now) {
                final(store)@ == old(store)@.remove(k)
            } else {
                final(store)@ == old(store)@
            }),
        cmd@ matches CommandV::SetKey { key, value, expiration }
            ==> final(store)@ == old(store)@.insert(key, spec_new_entry(value, expiration, now))
            && (role is Master ==> (r matches Ok(Outcome::Write { reply, propagate })
                && reply@ == WireVal::SimpleString(tok_ok())
                && propagate@ == spec_to_wire(cmd@)))
            && (role is Replica ==> (r matches Ok(Outcome::Reply(reply))
                && reply@ == WireVal::SimpleString(tok_ok()))),
        cmd@ matches CommandV::Info(secs)
            ==> final(store)@ == old(store)@
            && (r matches Ok(Outcome::Info { sections })
                && sections@ == spec_resolve_sections(secs)),
        cmd@ is ReplConf
            ==> final(store)@ == old(store)@
            && (role is Master ==> (r matches Ok(Outcome::Reply(msg))
                && msg@ == WireVal::SimpleString(tok_ok())))
            && (role is Replica ==> r is Err),
        cmd@ is PSync
            ==> final(store)@ == old(store)@
            && (role is Replica ==> r is Err)
            && (role matches Role::Master { replication_id, replication_offset }
                ==> (r matches Ok(Outcome::FullResync { reply, snapshot })
                    && reply@ == WireVal::SimpleString(spec_fullresync_line(replication_id@, replication_offset as nat))
                    && snapshot@ == spec_snapshot_frame(b64_decode_of(empty_rdb_text())))),
{
    match cmd {
        Command::Ping(c) => {
            let msg = match &c.message {
                Some(m) => Message::simple_string(clone_bytes(m)),
                None => Message::simple_string(tok_pong_vec()),
            };
            Ok(Outcome::Reply(msg))
        },
        Command::Echo(c) => {
            Ok(Outcome::Reply(Message::simple_string(clone_bytes(&c.message))))
        },
        Command::Get(c) => {
            match store.get_key(&c.key, now) {
                Some(e) => Ok(Outcome::Reply(Message::bulk_string(e.value))),
                None => Ok(Outcome::Reply(Message::NullBulkString)),
            }
        },
        Command::SetKey(c) => {
            let entry = Entry::new(clone_bytes(&c.value), c.expiration, now);
            store.insert_key(clone_bytes(&c.key), entry);
            let reply = Message::ok_message();
            proof {
                assert(tok_ok() =~= seq![79u8, 75u8]);
            }
            match role {
                Role::Master { .. } => {
                    let propagate = c.to_message();
                    Ok(Outcome::Write { reply, propagate })
                },
                Role::Replica { .. } => Ok(Outcome::Reply(reply)),
            }
        },
        Command::Info(c) => {
            Ok(Outcome::Info { sections: resolve_sections(c) })
        },
        Command::ReplConf(_) => {
            match role {
                Role::Master { .. } => {
                    proof {
                        assert(tok_ok() =~= seq![79u8, 75u8]);
                    }
                    Ok(Outcome::Reply(Message::ok_message()))
                },
                Role::Replica { .. } => Err(CommandError),
            }
        },
        Command::PSync(_) => {
            match role {
                Role::Master { replication_id, replication_offset } => {
                    let payload = empty_snapshot();
                    let snapshot = frame_snapshot(&payload);
                    let reply = fullresync_reply(replication_id, *replication_offset);
                    Ok(Outcome::FullResync { reply, snapshot })
                },
                Role::Replica { .. } => Err(CommandError),
            }
        },
    }
}

/// A failed handshake step: the reply was not the one the protocol
/// owes at that step. Fatal to the replication link alone.
#[derive(Debug, Clone, Copy, PartialEq, Eq)]
pub struct HandshakeError;

/// Where the replica's strict startup handshake stands: which request
/// is owed next. `Done` means the link now carries the propagated
/// command stream.
#[derive(Debug, Clone, Copy, PartialEq, Eq, Structural)]
pub enum HandshakeStage {
    Ping,
    ListeningPort,
    Capabilities,
    PSync,
    Done,
}

/// The request to send at this stage of the handshake, rendered
/// exactly as the matching command; nothing is owed once it is done.
pub fn stage_request(stage: &HandshakeStage, port: u16) -> (r: Option<Message>)
    ensures
        stage is Ping ==> (r matches Some(m) && m@ == spec_to_wire(CommandV::Ping(None))),
        stage is ListeningPort ==> (r matches Some(m) && m@ == spec_to_wire(
            CommandV::ReplConf(ReplConfigV::ListeningPort(port)),
        )),
        stage is Capabilities ==> (r matches Some(m) && m@ == spec_to_wire(
            CommandV::ReplConf(ReplConfigV::Capabilities(tok_psync2())),
        )),
        stage is PSync ==> (r matches Some(m) && m@ == spec_to_wire(
            CommandV::PSync { replication_id: tok_unknown_id(), offset: -1 },
        )),
        stage is Done ==> r is None,
{
    match stage {
        HandshakeStage::Ping => Some(PingCommand::new_command(None).to_message()),
        HandshakeStage::ListeningPort => Some(
            ReplConfCommand::new_listening_port_command(port).to_message(),
        ),
        HandshakeStage::Capabilities => Some(
            ReplConfCommand::new_capabilities_command().to_message(),
        ),
        HandshakeStage::PSync => {
            let id = vec![('?' as u8)];
            proof {
                assert(id@ =~= tok_unknown_id());
            }
            Some(PSyncCommand::new_command(id, -1).to_message())
        },
        HandshakeStage::Done => None,
    }
}

/// Whether this reply is the one the handshake owes at this stage:
/// `PONG` after the ping, `OK` after each `REPLCONF`, and a Simple
/// String beginning `FULLRESYNC` after the `PSYNC`.
pub open spec fn spec_stage_accepts(stage: HandshakeStage, resp: WireVal) -> bool {
    match stage {
        HandshakeStage::Ping => resp == WireVal::SimpleString(tok_pong()),
        HandshakeStage::ListeningPort => resp == WireVal::SimpleString(tok_ok()),
        HandshakeStage::Capabilities => resp == WireVal::SimpleString(tok_ok()),
        HandshakeStage::PSync => resp matches WireVal::SimpleString(d) && d.len()
            >= tok_fullresync().len() && d.take(tok_fullresync().len() as int)
            == tok_fullresync(),
        HandshakeStage::Done => false,
    }
}

/// The stage that follows a accepted reply.
pub open spec fn spec_next_stage(stage: HandshakeStage) -> HandshakeStage {
    match stage {
        HandshakeStage::Ping => HandshakeStage::ListeningPort,
        HandshakeStage::ListeningPort => HandshakeStage::Capabilities,
        HandshakeStage::Capabilities => HandshakeStage::PSync,
        HandshakeStage::PSync => HandshakeStage::Done,
        HandshakeStage::Done => HandshakeStage::Done,
    }
}

/// Advances the handshake on a received reply: exactly the owed reply
/// moves it one step forward; any other reply fails the link.
pub fn stage_advance(stage: &HandshakeStage, response: &Message) -> (r: Result<
    HandshakeStage,
    HandshakeError,
>)
    ensures
        r matches Ok(next) ==> spec_stage_accepts(*stage, response@) && next
            == spec_next_stage(*stage),
        r is Err ==> !spec_stage_accepts(*stage, response@),
{
    let data = match response {
        Message::SimpleString(d) => d,
        _ => {
            return Err(HandshakeError);
        },
    };
    match stage {
        HandshakeStage::Ping => {
            if bytes_eq(data, &tok_pong_vec()) {
                Ok(HandshakeStage::ListeningPort)
            } else {
                Err(HandshakeError)
            }
        },
        HandshakeStage::ListeningPort | HandshakeStage::Capabilities => {
            let ok = Message::ok_message();
            let accept = match &ok {
                Message::SimpleString(okd) => bytes_eq(data, okd),
                _ => false,
            };
            proof {
                assert(tok_ok() =~= seq![79u8, 75u8]);
            }
            if accept {
                match stage {
                    HandshakeStage::ListeningPort => Ok(HandshakeStage::Capabilities),
                    _ => Ok(HandshakeStage::PSync),
                }
            } else {
                Err(HandshakeError)
            }
        },
        HandshakeStage::PSync => {
            if crate::bytes::starts_with(data, &tok_fullresync_vec()) {
                Ok(HandshakeStage::Done)
            } else {
                Err(HandshakeError)
            }
        },
        HandshakeStage::Done => Err(HandshakeError),
    }
}

} // verus!
