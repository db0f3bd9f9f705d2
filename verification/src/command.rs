//! The command model: a closed set of typed commands, parsed from an
//! Array-of-Bulk-Strings wire value and rendered back into one.
//!
//! The first element names the verb, case-insensitively; the remaining
//! elements are positional arguments. Rendering (`to_message`) is the
//! stable client form — verb upper-case, arguments in order — so a
//! replica re-parses a propagated command to the identical value.

use vstd::prelude::*;
use crate::bytes::{lower, lower_bytes, bytes_eq, clone_bytes, tail_bytes};
use crate::digits::{dec_digits, spec_parse_number, parse_number_u128, format_u128};
use crate::message::{Message, WireVal, msg_view, msg_seq_view, MINUS};

verus! {

/// A failure scoped to one command: wrong element type, a missing or
/// extra argument, an unparsable number, or an unknown verb, section
/// or sub-option. The connection survives it.
#[derive(Debug, Clone, Copy, PartialEq, Eq)]
pub struct CommandError;

/// `PING` — `"ping"` after case folding.
pub open spec fn tok_ping() -> Seq<u8> {
    seq!['p' as u8, 'i' as u8, 'n' as u8, 'g' as u8]
}

/// `"echo"` after case folding.
pub open spec fn tok_echo() -> Seq<u8> {
    seq!['e' as u8, 'c' as u8, 'h' as u8, 'o' as u8]
}

/// `"set"` after case folding.
pub open spec fn tok_set() -> Seq<u8> {
    seq!['s' as u8, 'e' as u8, 't' as u8]
}

/// `"get"` after case folding.
pub open spec fn tok_get() -> Seq<u8> {
    seq!['g' as u8, 'e' as u8, 't' as u8]
}

/// `"info"` after case folding.
pub open spec fn tok_info() -> Seq<u8> {
    seq!['i' as u8, 'n' as u8, 'f' as u8, 'o' as u8]
}

/// `"replconf"` after case folding.
pub open spec fn tok_replconf() -> Seq<u8> {
    seq!['r' as u8, 'e' as u8, 'p' as u8, 'l' as u8, 'c' as u8, 'o' as u8, 'n' as u8, 'f' as u8]
}

/// `"psync"` after case folding.
pub open spec fn tok_psync() -> Seq<u8> {
    seq!['p' as u8, 's' as u8, 'y' as u8, 'n' as u8, 'c' as u8]
}

/// `"px"` after case folding.
pub open spec fn tok_px() -> Seq<u8> {
    seq!['p' as u8, 'x' as u8]
}

/// The exact sub-option name `listening-port`.
pub open spec fn tok_listening_port() -> Seq<u8> {
    seq![
        'l' as u8,
        'i' as u8,
        's' as u8,
        't' as u8,
        'e' as u8,
        'n' as u8,
        'i' as u8,
        'n' as u8,
        'g' as u8,
        '-' as u8,
        'p' as u8,
        'o' as u8,
        'r' as u8,
        't' as u8,
    ]
}

/// The exact sub-option name `capa`.
pub open spec fn tok_capa() -> Seq<u8> {
    seq!['c' as u8, 'a' as u8, 'p' as u8, 'a' as u8]
}

/// The section name `default`.
pub open spec fn tok_default() -> Seq<u8> {
    seq!['d' as u8, 'e' as u8, 'f' as u8, 'a' as u8, 'u' as u8, 'l' as u8, 't' as u8]
}

/// The section name `server`.
pub open spec fn tok_server() -> Seq<u8> {
    seq!['s' as u8, 'e' as u8, 'r' as u8, 'v' as u8, 'e' as u8, 'r' as u8]
}

/// The section name `replication`.
pub open spec fn tok_replication() -> Seq<u8> {
    seq![
        'r' as u8,
        'e' as u8,
        'p' as u8,
        'l' as u8,
        'i' as u8,
        'c' as u8,
        'a' as u8,
        't' as u8,
        'i' as u8,
        'o' as u8,
        'n' as u8,
    ]
}

/// The capability token `psync2` sent during the replica handshake.
pub open spec fn tok_psync2() -> Seq<u8> {
    seq!['p' as u8, 's' as u8, 'y' as u8, 'n' as u8, 'c' as u8, '2' as u8]
}

/// The verb `PING` as rendered on the wire.
pub open spec fn verb_ping() -> Seq<u8> {
    seq!['P' as u8, 'I' as u8, 'N' as u8, 'G' as u8]
}

/// The verb `ECHO` as rendered on the wire.
pub open spec fn verb_echo() -> Seq<u8> {
    seq!['E' as u8, 'C' as u8, 'H' as u8, 'O' as u8]
}

/// The verb `SET` as rendered on the wire.
pub open spec fn verb_set() -> Seq<u8> {
    seq!['S' as u8, 'E' as u8, 'T' as u8]
}

/// The verb `GET` as rendered on the wire.
pub open spec fn verb_get() -> Seq<u8> {
    seq!['G' as u8, 'E' as u8, 'T' as u8]
}

/// The verb `INFO` as rendered on the wire.
pub open spec fn verb_info() -> Seq<u8> {
    seq!['I' as u8, 'N' as u8, 'F' as u8, 'O' as u8]
}

/// The verb `REPLCONF` as rendered on the wire.
pub open spec fn verb_replconf() -> Seq<u8> {
    seq!['R' as u8, 'E' as u8, 'P' as u8, 'L' as u8, 'C' as u8, 'O' as u8, 'N' as u8, 'F' as u8]
}

/// The verb `PSYNC` as rendered on the wire.
pub open spec fn verb_psync() -> Seq<u8> {
    seq!['P' as u8, 'S' as u8, 'Y' as u8, 'N' as u8, 'C' as u8]
}

/// The option name `PX` as rendered on the wire.
pub open spec fn verb_px() -> Seq<u8> {
    seq!['P' as u8, 'X' as u8]
}

/// An `INFO` section from the fixed vocabulary.
#[derive(Debug, Clone, Copy, PartialEq, Eq, Structural)]
pub enum InfoSection {
    Server,
    Replication,
    Default,
}

/// `PING`, with an optional message to echo back.
#[derive(Debug, Clone, PartialEq, Eq)]
pub struct PingCommand {
    pub message: Option<Vec<u8>>,
}

/// `ECHO` with its required message.
#[derive(Debug, Clone, PartialEq, Eq)]
pub struct EchoCommand {
    pub message: Vec<u8>,
}

/// `SET key value`, with an optional relative time-to-live in
/// milliseconds from the `PX` option.
#[derive(Debug, Clone, PartialEq, Eq)]
pub struct SetCommand {
    pub key: Vec<u8>,
    pub value: Vec<u8>,
    pub expiration: Option<u128>,
}

/// `GET key`.
#[derive(Debug, Clone, PartialEq, Eq)]
pub struct GetCommand {
    pub key: Vec<u8>,
}

/// `INFO`, with the requested sections in first-occurrence order,
/// duplicates dropped; none requested means the default report.
#[derive(Debug, Clone, PartialEq, Eq)]
pub struct InfoCommand {
    pub sections: Vec<InfoSection>,
}

/// The one sub-option a `REPLCONF` invocation carries.
#[derive(Debug, Clone, PartialEq, Eq)]
pub enum ReplConfig {
    ListeningPort(u16),
    Capabilities(Vec<u8>),
}

/// `REPLCONF listening-port <port>` or `REPLCONF capa <token>`.
#[derive(Debug, Clone, PartialEq, Eq)]
pub struct ReplConfCommand {
    pub config: ReplConfig,
}

/// `PSYNC <replication-id> <offset>`; the offset `-1` means unknown.
#[derive(Debug, Clone, PartialEq, Eq)]
pub struct PSyncCommand {
    pub replication_id: Vec<u8>,
    pub offset: isize,
}

/// The closed set of commands.
#[derive(Debug, PartialEq, Eq)]
pub enum Command {
    Ping(PingCommand),
    Echo(EchoCommand),
    SetKey(SetCommand),
    Get(GetCommand),
    Info(InfoCommand),
    ReplConf(ReplConfCommand),
    PSync(PSyncCommand),
}

/// The mathematical form of a `ReplConfig`.
pub enum ReplConfigV {
    ListeningPort(u16),
    Capabilities(Seq<u8>),
}

/// The mathematical form of a `Command`, used in contracts.
pub enum CommandV {
    Ping(Option<Seq<u8>>),
    Echo(Seq<u8>),
    SetKey { key: Seq<u8>, value: Seq<u8>, expiration: Option<u128> },
    Get(Seq<u8>),
    Info(Seq<InfoSection>),
    ReplConf(ReplConfigV),
    PSync { replication_id: Seq<u8>, offset: int },
}

impl View for ReplConfig {
    type V = ReplConfigV;

    open spec fn view(&self) -> ReplConfigV {
        match self {
            ReplConfig::ListeningPort(p) => ReplConfigV::ListeningPort(*p),
            ReplConfig::Capabilities(c) => ReplConfigV::Capabilities(c@),
        }
    }
}

impl View for Command {
    type V = CommandV;

    open spec fn view(&self) -> CommandV {
        match self {
            Command::Ping(c) => CommandV::Ping(
                match c.message {
                    Some(m) => Some(m@),
                    None => None,
                },
            ),
            Command::Echo(c) => CommandV::Echo(c.message@),
            Command::SetKey(c) => CommandV::SetKey {
                key: c.key@,
                value: c.value@,
                expiration: c.expiration,
            },
            Command::Get(c) => CommandV::Get(c.key@),
            Command::Info(c) => CommandV::Info(c.sections@),
            Command::ReplConf(c) => CommandV::ReplConf(c.config@),
            Command::PSync(c) => CommandV::PSync {
                replication_id: c.replication_id@,
                offset: c.offset as int,
            },
        }
    }
}


/// All elements of the array are Bulk Strings.
pub open spec fn all_bulk(es: Seq<WireVal>) -> bool {
    forall|i: int| 0 <= i < es.len() ==> (#[trigger] es[i]) is BulkString
}

/// The payload of each Bulk String element.
pub open spec fn payloads(es: Seq<WireVal>) -> Seq<Seq<u8>> {
    es.map_values(|e: WireVal| e->BulkString_0)
}

/// The payloads of a vector of byte strings.
pub open spec fn datas_view(s: Seq<Vec<u8>>) -> Seq<Seq<u8>> {
    s.map_values(|v: Vec<u8>| v@)
}

/// `PING` takes an optional message; anything more is ignored.
pub open spec fn spec_ping_args(args: Seq<Seq<u8>>) -> CommandV {
    CommandV::Ping(
        if args.len() >= 1 {
            Some(args[0])
        } else {
            None
        },
    )
}

/// `ECHO` requires its message.
pub open spec fn spec_echo_args(args: Seq<Seq<u8>>) -> Option<CommandV> {
    if args.len() >= 1 {
        Some(CommandV::Echo(args[0]))
    } else {
        None
    }
}

/// `GET` requires its key.
pub open spec fn spec_get_args(args: Seq<Seq<u8>>) -> Option<CommandV> {
    if args.len() >= 1 {
        Some(CommandV::Get(args[0]))
    } else {
        None
    }
}

/// Scans the trailing arguments of `SET` for the `PX` option, pairwise
/// and case-insensitively, the last occurrence winning. An option value
/// that is not a number fitting `u128` fails the whole command.
pub open spec fn spec_scan_px(args: Seq<Seq<u8>>, i: int, cur: Option<u128>) -> Option<
    Option<u128>,
>
    decreases args.len() - i,
{
    if i < 0 || i + 1 >= args.len() {
        Some(cur)
    } else if lower(args[i]) == tok_px() {
        match spec_parse_number(args[i + 1]) {
            Some(v) => if v <= u128::MAX {
                spec_scan_px(args, i + 1, Some(v as u128))
            } else {
                None
            },
            None => None,
        }
    } else {
        spec_scan_px(args, i + 1, cur)
    }
}

/// `SET` requires key and value, then scans for `PX`.
pub open spec fn spec_set_args(args: Seq<Seq<u8>>) -> Option<CommandV> {
    if args.len() >= 2 {
        match spec_scan_px(args, 2, None) {
            Some(exp) => Some(
                CommandV::SetKey { key: args[0], value: args[1], expiration: exp },
            ),
            None => None,
        }
    } else {
        None
    }
}

/// One section name from the fixed vocabulary.
pub open spec fn spec_section(data: Seq<u8>) -> Option<InfoSection> {
    if data == tok_default() {
        Some(InfoSection::Default)
    } else if data == tok_server() {
        Some(InfoSection::Server)
    } else if data == tok_replication() {
        Some(InfoSection::Replication)
    } else {
        None
    }
}

/// Collects the requested sections left to right, dropping duplicates;
/// an unknown section name fails the whole command.
pub open spec fn spec_info_scan(args: Seq<Seq<u8>>, i: int, acc: Seq<InfoSection>) -> Option<
    Seq<InfoSection>,
>
    decreases args.len() - i,
{
    if i < 0 || i >= args.len() {
        Some(acc)
    } else {
        match spec_section(args[i]) {
            Some(sec) => spec_info_scan(
                args,
                i + 1,
                if acc.contains(sec) {
                    acc
                } else {
                    acc.push(sec)
                },
            ),
            None => None,
        }
    }
}

/// `REPLCONF` carries exactly one recognized sub-option, matched
/// exactly: `listening-port` with a port number, or `capa` with a
/// capability token.
pub open spec fn spec_replconf_args(args: Seq<Seq<u8>>) -> Option<CommandV> {
    if args.len() >= 1 && args[0] == tok_listening_port() {
        if args.len() >= 2 {
            match spec_parse_number(args[1]) {
                Some(v) => if v <= u16::MAX {
                    Some(CommandV::ReplConf(ReplConfigV::ListeningPort(v as u16)))
                } else {
                    None
                },
                None => None,
            }
        } else {
            None
        }
    } else if args.len() >= 1 && args[0] == tok_capa() {
        if args.len() >= 2 {
            Some(CommandV::ReplConf(ReplConfigV::Capabilities(args[1])))
        } else {
            None
        }
    } else {
        None
    }
}

/// A signed decimal: an optional leading `-`, then digits.
pub open spec fn spec_parse_signed(data: Seq<u8>) -> Option<int> {
    if data.len() >= 1 && data[0] == ('-' as u8) {
        match spec_parse_number(data.skip(1)) {
            Some(v) => Some(-(v as int)),
            None => None,
        }
    } else {
        match spec_parse_number(data) {
            Some(v) => Some(v as int),
            None => None,
        }
    }
}

/// `PSYNC` requires a replication id and a signed offset fitting
/// `isize`.
pub open spec fn spec_psync_args(args: Seq<Seq<u8>>) -> Option<CommandV> {
    if args.len() >= 2 {
        match spec_parse_signed(args[1]) {
            Some(v) => if isize::MIN <= v <= isize::MAX {
                Some(CommandV::PSync { replication_id: args[0], offset: v })
            } else {
                None
            },
            None => None,
        }
    } else {
        None
    }
}

/// Parses a wire value into a command: an Array of Bulk Strings, the
/// first element selecting the verb case-insensitively. `None` is a
/// command error.
pub open spec fn spec_parse_command(v: WireVal) -> Option<CommandV> {
    match v {
        WireVal::Array(es) => if es.len() >= 1 && all_bulk(es) {
            let verb = lower(payloads(es)[0]);
            let args = payloads(es).drop_first();
            if verb == tok_ping() {
                Some(spec_ping_args(args))
            } else if verb == tok_echo() {
                spec_echo_args(args)
            } else if verb == tok_set() {
                spec_set_args(args)
            } else if verb == tok_get() {
                spec_get_args(args)
            } else if verb == tok_info() {
                match spec_info_scan(args, 0, Seq::empty()) {
                    Some(secs) => Some(CommandV::Info(secs)),
                    None => None,
                }
            } else if verb == tok_replconf() {
                spec_replconf_args(args)
            } else if verb == tok_psync() {
                spec_psync_args(args)
            } else {
                None
            }
        } else {
            None
        },
        _ => None,
    }
}


/// Builds `ping`.
fn tok_ping_vec() -> (r: Vec<u8>)
    ensures
        r@ == tok_ping(),
{
    let v = vec![('p' as u8), ('i' as u8), ('n' as u8), ('g' as u8)];
    proof {
        assert(v@ =~= tok_ping());
    }
    v
}

/// Builds `echo`.
fn tok_echo_vec() -> (r: Vec<u8>)
    ensures
        r@ == tok_echo(),
{
    let v = vec![('e' as u8), ('c' as u8), ('h' as u8), ('o' as u8)];
    proof {
        assert(v@ =~= tok_echo());
    }
    v
}

/// Builds `set`.
fn tok_set_vec() -> (r: Vec<u8>)
    ensures
        r@ == tok_set(),
{
    let v = vec![('s' as u8), ('e' as u8), ('t' as u8)];
    proof {
        assert(v@ =~= tok_set());
    }
    v
}

/// Builds `get`.
fn tok_get_vec() -> (r: Vec<u8>)
    ensures
        r@ == tok_get(),
{
    let v = vec![('g' as u8), ('e' as u8), ('t' as u8)];
    proof {
        assert(v@ =~= tok_get());
    }
    v
}

/// Builds `info`.
fn tok_info_vec() -> (r: Vec<u8>)
    ensures
        r@ == tok_info(),
{
    let v = vec![('i' as u8), ('n' as u8), ('f' as u8), ('o' as u8)];
    proof {
        assert(v@ =~= tok_info());
    }
    v
}

/// Builds `replconf`.
fn tok_replconf_vec() -> (r: Vec<u8>)
    ensures
        r@ == tok_replconf(),
{
    let v = vec![('r' as u8), ('e' as u8), ('p' as u8), ('l' as u8), ('c' as u8), ('o' as u8), ('n' as u8), ('f' as u8)];
    proof {
        assert(v@ =~= tok_replconf());
    }
    v
}

/// Builds `psync`.
fn tok_psync_vec() -> (r: Vec<u8>)
    ensures
        r@ == tok_psync(),
{
    let v = vec![('p' as u8), ('s' as u8), ('y' as u8), ('n' as u8), ('c' as u8)];
    proof {
        assert(v@ =~= tok_psync());
    }
    v
}

/// Builds `px`.
fn tok_px_vec() -> (r: Vec<u8>)
    ensures
        r@ == tok_px(),
{
    let v = vec![('p' as u8), ('x' as u8)];
    proof {
        assert(v@ =~= tok_px());
    }
    v
}

/// Builds `listening-port`.
fn tok_listening_port_vec() -> (r: Vec<u8>)
    ensures
        r@ == tok_listening_port(),
{
    let v = vec![('l' as u8), ('i' as u8), ('s' as u8), ('t' as u8), ('e' as u8), ('n' as u8), ('i' as u8), ('n' as u8), ('g' as u8), ('-' as u8), ('p' as u8), ('o' as u8), ('r' as u8), ('t' as u8)];
    proof {
        assert(v@ =~= tok_listening_port());
    }
    v
}

/// Builds `capa`.
fn tok_capa_vec() -> (r: Vec<u8>)
    ensures
        r@ == tok_capa(),
{
    let v = vec![('c' as u8), ('a' as u8), ('p' as u8), ('a' as u8)];
    proof {
        assert(v@ =~= tok_capa());
    }
    v
}

/// Builds `default`.
fn tok_default_vec() -> (r: Vec<u8>)
    ensures
        r@ == tok_default(),
{
    let v = vec![('d' as u8), ('e' as u8), ('f' as u8), ('a' as u8), ('u' as u8), ('l' as u8), ('t' as u8)];
    proof {
        assert(v@ =~= tok_default());
    }
    v
}

/// Builds `server`.
fn tok_server_vec() -> (r: Vec<u8>)
    ensures
        r@ == tok_server(),
{
    let v = vec![('s' as u8), ('e' as u8), ('r' as u8), ('v' as u8), ('e' as u8), ('r' as u8)];
    proof {
        assert(v@ =~= tok_server());
    }
    v
}

/// Builds `replication`.
fn tok_replication_vec() -> (r: Vec<u8>)
    ensures
        r@ == tok_replication(),
{
    let v = vec![('r' as u8), ('e' as u8), ('p' as u8), ('l' as u8), ('i' as u8), ('c' as u8), ('a' as u8), ('t' as u8), ('i' as u8), ('o' as u8), ('n' as u8)];
    proof {
        assert(v@ =~= tok_replication());
    }
    v
}

/// Builds `psync2`.
fn tok_psync2_vec() -> (r: Vec<u8>)
    ensures
        r@ == tok_psync2(),
{
    let v = vec![('p' as u8), ('s' as u8), ('y' as u8), ('n' as u8), ('c' as u8), ('2' as u8)];
    proof {
        assert(v@ =~= tok_psync2());
    }
    v
}

/// Builds `PING`.
fn verb_ping_vec() -> (r: Vec<u8>)
    ensures
        r@ == verb_ping(),
{
    let v = vec![('P' as u8), ('I' as u8), ('N' as u8), ('G' as u8)];
    proof {
        assert(v@ =~= verb_ping());
    }
    v
}

/// Builds `ECHO`.
fn verb_echo_vec() -> (r: Vec<u8>)
    ensures
        r@ == verb_echo(),
{
    let v = vec![('E' as u8), ('C' as u8), ('H' as u8), ('O' as u8)];
    proof {
        assert(v@ =~= verb_echo());
    }
    v
}

/// Builds `SET`.
fn verb_set_vec() -> (r: Vec<u8>)
    ensures
        r@ == verb_set(),
{
    let v = vec![('S' as u8), ('E' as u8), ('T' as u8)];
    proof {
        assert(v@ =~= verb_set());
    }
    v
}

/// Builds `GET`.
fn verb_get_vec() -> (r: Vec<u8>)
    ensures
        r@ == verb_get(),
{
    let v = vec![('G' as u8), ('E' as u8), ('T' as u8)];
    proof {
        assert(v@ =~= verb_get());
    }
    v
}

/// Builds `INFO`.
fn verb_info_vec() -> (r: Vec<u8>)
    ensures
        r@ == verb_info(),
{
    let v = vec![('I' as u8), ('N' as u8), ('F' as u8), ('O' as u8)];
    proof {
        assert(v@ =~= verb_info());
    }
    v
}

/// Builds `REPLCONF`.
fn verb_replconf_vec() -> (r: Vec<u8>)
    ensures
        r@ == verb_replconf(),
{
    let v = vec![('R' as u8), ('E' as u8), ('P' as u8), ('L' as u8), ('C' as u8), ('O' as u8), ('N' as u8), ('F' as u8)];
    proof {
        assert(v@ =~= verb_replconf());
    }
    v
}

/// Builds `PSYNC`.
fn verb_psync_vec() -> (r: Vec<u8>)
    ensures
        r@ == verb_psync(),
{
    let v = vec![('P' as u8), ('S' as u8), ('Y' as u8), ('N' as u8), ('C' as u8)];
    proof {
        assert(v@ =~= verb_psync());
    }
    v
}

/// Builds `PX`.
fn verb_px_vec() -> (r: Vec<u8>)
    ensures
        r@ == verb_px(),
{
    let v = vec![('P' as u8), ('X' as u8)];
    proof {
        assert(v@ =~= verb_px());
    }
    v
}


/// Whether `v` holds `s`.
fn contains_section(v: &Vec<InfoSection>, s: InfoSection) -> (r: bool)
    ensures
        r == v@.contains(s),
{
    let mut i: usize = 0;
    while i < v.len()
        invariant
            i <= v@.len(),
            forall|j: int| 0 <= j < i ==> v@[j] != s,
        decreases v@.len() - i,
    {
        if v[i] == s {
            return true;
        }
        i = i + 1;
    }
    false
}

impl InfoSection {
    /// Parses one section name from the fixed vocabulary.
    pub fn parse(value: &Vec<u8>) -> (r: Result<InfoSection, CommandError>)
        ensures
            match r {
                Ok(s) => spec_section(value@) == Some(s),
                Err(_) => spec_section(value@) is None,
            },
    {
        if bytes_eq(value, &tok_default_vec()) {
            Ok(InfoSection::Default)
        } else if bytes_eq(value, &tok_server_vec()) {
            Ok(InfoSection::Server)
        } else if bytes_eq(value, &tok_replication_vec()) {
            Ok(InfoSection::Replication)
        } else {
            Err(CommandError)
        }
    }
}

impl PingCommand {
    /// Wraps an optional message as a `PING`.
    pub fn new_command(message: Option<Vec<u8>>) -> (r: PingCommand)
        ensures
            r.message == message,
    {
        PingCommand { message }
    }

    /// Parses `PING [msg]` from the arguments after the verb; extra
    /// arguments are ignored.
    pub fn new(args: &Vec<Vec<u8>>) -> (r: PingCommand)
        ensures
            spec_ping_args(datas_view(args@)) == (Command::Ping(r))@,
    {
        if args.len() >= 1 {
            PingCommand { message: Some(clone_bytes(&args[0])) }
        } else {
            PingCommand { message: None }
        }
    }
}

impl EchoCommand {
    /// Parses `ECHO msg`; the message is required.
    pub fn new(args: &Vec<Vec<u8>>) -> (r: Result<EchoCommand, CommandError>)
        ensures
            match r {
                Ok(c) => spec_echo_args(datas_view(args@)) == Some((Command::Echo(c))@),
                Err(_) => spec_echo_args(datas_view(args@)) is None,
            },
    {
        if args.len() >= 1 {
            Ok(EchoCommand { message: clone_bytes(&args[0]) })
        } else {
            Err(CommandError)
        }
    }
}

impl GetCommand {
    /// Parses `GET key`; the key is required.
    pub fn new(args: &Vec<Vec<u8>>) -> (r: Result<GetCommand, CommandError>)
        ensures
            match r {
                Ok(c) => spec_get_args(datas_view(args@)) == Some((Command::Get(c))@),
                Err(_) => spec_get_args(datas_view(args@)) is None,
            },
    {
        if args.len() >= 1 {
            Ok(GetCommand { key: clone_bytes(&args[0]) })
        } else {
            Err(CommandError)
        }
    }
}

impl SetCommand {
    /// Wraps key, value and optional time-to-live as a `SET`.
    pub fn new_command(key: Vec<u8>, value: Vec<u8>, expiration: Option<u128>) -> (r: SetCommand)
        ensures
            r.key == key,
            r.value == value,
            r.expiration == expiration,
    {
        SetCommand { key, value, expiration }
    }

    /// Parses `SET key value [PX millis]`, scanning the trailing
    /// arguments pairwise for `PX`, the last occurrence winning.
    #[verifier::loop_isolation(false)]
    pub fn new(args: &Vec<Vec<u8>>) -> (r: Result<SetCommand, CommandError>)
        ensures
            match r {
                Ok(c) => spec_set_args(datas_view(args@)) == Some((Command::SetKey(c))@),
                Err(_) => spec_set_args(datas_view(args@)) is None,
            },
    {
        let ghost a = datas_view(args@);
        if args.len() < 2 {
            return Err(CommandError);
        }
        let mut expiration: Option<u128> = None;
        let mut i: usize = 2;
        while i < args.len() - 1
            invariant
                2 <= i <= args@.len(),
                spec_scan_px(a, 2, None) == spec_scan_px(a, i as int, expiration),
            decreases args@.len() - i,
        {
            let low = lower_bytes(&args[i]);
            if bytes_eq(&low, &tok_px_vec()) {
                match parse_number_u128(&args[i + 1]) {
                    Some(v) => {
                        expiration = Some(v);
                    },
                    None => {
                        return Err(CommandError);
                    },
                }
            }
            i = i + 1;
        }
        Ok(SetCommand { key: clone_bytes(&args[0]), value: clone_bytes(&args[1]), expiration })
    }
}

impl InfoCommand {
    /// Parses `INFO [section...]`, dropping duplicates; an unknown
    /// section name is an error.
    #[verifier::loop_isolation(false)]
    pub fn new(args: &Vec<Vec<u8>>) -> (r: Result<InfoCommand, CommandError>)
        ensures
            match r {
                Ok(c) => spec_info_scan(datas_view(args@), 0, Seq::empty()) == Some(c.sections@),
                Err(_) => spec_info_scan(datas_view(args@), 0, Seq::empty()) is None,
            },
    {
        let ghost a = datas_view(args@);
        let mut sections: Vec<InfoSection> = Vec::new();
        let mut i: usize = 0;
        while i < args.len()
            invariant
                i <= args@.len(),
                spec_info_scan(a, 0, Seq::empty()) == spec_info_scan(a, i as int, sections@),
            decreases args@.len() - i,
        {
            match InfoSection::parse(&args[i]) {
                Ok(sec) => {
                    if !contains_section(&sections, sec) {
                        sections.push(sec);
                    }
                },
                Err(e) => {
                    return Err(e);
                },
            }
            i = i + 1;
        }
        Ok(InfoCommand { sections })
    }
}

impl ReplConfCommand {
    /// Wraps a listening port announcement.
    pub fn new_listening_port_command(port: u16) -> (r: ReplConfCommand)
        ensures
            r.config == ReplConfig::ListeningPort(port),
    {
        ReplConfCommand { config: ReplConfig::ListeningPort(port) }
    }

    /// Wraps the stock `capa psync2` capability announcement.
    pub fn new_capabilities_command() -> (r: ReplConfCommand)
        ensures
            r.config@ == ReplConfigV::Capabilities(tok_psync2()),
    {
        ReplConfCommand { config: ReplConfig::Capabilities(tok_psync2_vec()) }
    }

    /// Parses `REPLCONF listening-port <port>` or `REPLCONF capa
    /// <token>`; exactly one recognized sub-option, matched exactly.
    pub fn new(args: &Vec<Vec<u8>>) -> (r: Result<ReplConfCommand, CommandError>)
        ensures
            match r {
                Ok(c) => spec_replconf_args(datas_view(args@)) == Some((Command::ReplConf(c))@),
                Err(_) => spec_replconf_args(datas_view(args@)) is None,
            },
    {
        if args.len() == 0 {
            return Err(CommandError);
        }
        if bytes_eq(&args[0], &tok_listening_port_vec()) {
            if args.len() < 2 {
                return Err(CommandError);
            }
            match parse_number_u128(&args[1]) {
                Some(v) => if v <= u16::MAX as u128 {
                    Ok(ReplConfCommand { config: ReplConfig::ListeningPort(v as u16) })
                } else {
                    Err(CommandError)
                },
                None => Err(CommandError),
            }
        } else if bytes_eq(&args[0], &tok_capa_vec()) {
            if args.len() < 2 {
                return Err(CommandError);
            }
            Ok(ReplConfCommand { config: ReplConfig::Capabilities(clone_bytes(&args[1])) })
        } else {
            Err(CommandError)
        }
    }
}

impl PSyncCommand {
    /// Wraps a replication id and offset as a `PSYNC` request.
    pub fn new_command(replication_id: Vec<u8>, offset: isize) -> (r: PSyncCommand)
        ensures
            r.replication_id == replication_id,
            r.offset == offset,
    {
        PSyncCommand { replication_id, offset }
    }

    /// Parses `PSYNC <replication-id> <offset>`; both are required and
    /// the offset is a signed decimal fitting `isize`.
    pub fn new(args: &Vec<Vec<u8>>) -> (r: Result<PSyncCommand, CommandError>)
        ensures
            match r {
                Ok(c) => spec_psync_args(datas_view(args@)) == Some((Command::PSync(c))@),
                Err(_) => spec_psync_args(datas_view(args@)) is None,
            },
    {
        if args.len() < 2 {
            return Err(CommandError);
        }
        let data = &args[1];
        if data.len() >= 1 && data[0] == MINUS {
            let mag_vec = tail_bytes(data, 1);
            match parse_number_u128(&mag_vec) {
                Some(v) => if v <= (isize::MAX as u128) + 1 {
                    let offset = (-(v as i128)) as isize;
                    Ok(PSyncCommand { replication_id: clone_bytes(&args[0]), offset })
                } else {
                    Err(CommandError)
                },
                None => Err(CommandError),
            }
        } else {
            match parse_number_u128(data) {
                Some(v) => if v <= isize::MAX as u128 {
                    Ok(
                        PSyncCommand {
                            replication_id: clone_bytes(&args[0]),
                            offset: v as isize,
                        },
                    )
                } else {
                    Err(CommandError)
                },
                None => Err(CommandError),
            }
        }
    }
}

/// Parses a wire value into a command: an Array of Bulk Strings, the
/// first element selecting the verb case-insensitively, the rest its
/// arguments. A `CommandError` is scoped to this one command.
#[verifier::loop_isolation(false)]
pub fn parse_command(message: &Message) -> (r: Result<Command, CommandError>)
    ensures
        match r {
            Ok(c) => spec_parse_command(message@) == Some(c@),
            Err(_) => spec_parse_command(message@) is None,
        },
{
    let es = match message {
        Message::Array(es) => es,
        _ => {
            return Err(CommandError);
        },
    };
    let ghost v = msg_seq_view(es@);
    proof {
        crate::message::lemma_msg_seq_view_index(es@);
    }
    let mut datas: Vec<Vec<u8>> = Vec::new();
    let mut i: usize = 0;
    while i < es.len()
        invariant
            i <= es@.len(),
            datas@.len() == i,
            forall|j: int| 0 <= j < i ==> (#[trigger] v[j]) is BulkString,
            forall|j: int| 0 <= j < i ==> (#[trigger] datas@[j]@) == v[j]->BulkString_0,
        decreases es@.len() - i,
    {
        match &es[i] {
            Message::BulkString(d) => {
                datas.push(clone_bytes(d));
            },
            _ => {
                proof {
                    assert(v[i as int] == msg_view(es@[i as int]));
                    assert(!(v[i as int] is BulkString));
                }
                return Err(CommandError);
            },
        }
        i = i + 1;
    }
    if datas.len() == 0 {
        return Err(CommandError);
    }
    proof {
        assert forall|j: int| 0 <= j < v.len() implies #[trigger] payloads(v)[j] == datas_view(
            datas@,
        )[j] by {}
        assert(payloads(v) =~= datas_view(datas@));
    }
    let verb = lower_bytes(&datas[0]);
    let mut args: Vec<Vec<u8>> = Vec::new();
    let mut j: usize = 1;
    while j < datas.len()
        invariant
            1 <= j <= datas@.len(),
            args@.len() == j - 1,
            forall|k: int| 0 <= k < j - 1 ==> (#[trigger] args@[k]@) == datas@[k + 1]@,
        decreases datas@.len() - j,
    {
        args.push(clone_bytes(&datas[j]));
        j = j + 1;
    }
    proof {
        assert forall|k: int|
            0 <= k < datas_view(args@).len() implies #[trigger] datas_view(args@)[k] == payloads(
            v,
        ).drop_first()[k] by {}
        assert(datas_view(args@) =~= payloads(v).drop_first());
    }
    if bytes_eq(&verb, &tok_ping_vec()) {
        Ok(Command::Ping(PingCommand::new(&args)))
    } else if bytes_eq(&verb, &tok_echo_vec()) {
        match EchoCommand::new(&args) {
            Ok(c) => Ok(Command::Echo(c)),
            Err(e) => Err(e),
        }
    } else if bytes_eq(&verb, &tok_set_vec()) {
        match SetCommand::new(&args) {
            Ok(c) => Ok(Command::SetKey(c)),
            Err(e) => Err(e),
        }
    } else if bytes_eq(&verb, &tok_get_vec()) {
        match GetCommand::new(&args) {
            Ok(c) => Ok(Command::Get(c)),
            Err(e) => Err(e),
        }
    } else if bytes_eq(&verb, &tok_info_vec()) {
        match InfoCommand::new(&args) {
            Ok(c) => Ok(Command::Info(c)),
            Err(e) => Err(e),
        }
    } else if bytes_eq(&verb, &tok_replconf_vec()) {
        match ReplConfCommand::new(&args) {
            Ok(c) => Ok(Command::ReplConf(c)),
            Err(e) => Err(e),
        }
    } else if bytes_eq(&verb, &tok_psync_vec()) {
        match PSyncCommand::new(&args) {
            Ok(c) => Ok(Command::PSync(c)),
            Err(e) => Err(e),
        }
    } else {
        Err(CommandError)
    }
}


/// The wire rendering of one section name.
pub open spec fn section_name(s: InfoSection) -> Seq<u8> {
    match s {
        InfoSection::Server => tok_server(),
        InfoSection::Replication => tok_replication(),
        InfoSection::Default => tok_default(),
    }
}

/// A signed decimal rendering: `-` before the digits of the magnitude.
pub open spec fn dec_digits_signed(n: int) -> Seq<u8> {
    if n < 0 {
        seq![MINUS] + dec_digits((-n) as nat)
    } else {
        dec_digits(n as nat)
    }
}

/// The stable wire form of a command: an Array of Bulk Strings, verb
/// first, arguments in order, exactly as a client would send it.
pub open spec fn spec_to_wire(c: CommandV) -> WireVal {
    match c {
        CommandV::Ping(m) => WireVal::Array(
            match m {
                Some(msg) => seq![
                    WireVal::BulkString(verb_ping()),
                    WireVal::BulkString(msg),
                ],
                None => seq![WireVal::BulkString(verb_ping())],
            },
        ),
        CommandV::Echo(m) => WireVal::Array(
            seq![WireVal::BulkString(verb_echo()), WireVal::BulkString(m)],
        ),
        CommandV::SetKey { key, value, expiration } => WireVal::Array(
            match expiration {
                Some(e) => seq![
                    WireVal::BulkString(verb_set()),
                    WireVal::BulkString(key),
                    WireVal::BulkString(value),
                    WireVal::BulkString(verb_px()),
                    WireVal::BulkString(dec_digits(e as nat)),
                ],
                None => seq![
                    WireVal::BulkString(verb_set()),
                    WireVal::BulkString(key),
                    WireVal::BulkString(value),
                ],
            },
        ),
        CommandV::Get(k) => WireVal::Array(
            seq![WireVal::BulkString(verb_get()), WireVal::BulkString(k)],
        ),
        CommandV::Info(secs) => WireVal::Array(
            seq![WireVal::BulkString(verb_info())] + secs.map_values(
                |s: InfoSection| WireVal::BulkString(section_name(s)),
            ),
        ),
        CommandV::ReplConf(cfg) => WireVal::Array(
            match cfg {
                ReplConfigV::ListeningPort(p) => seq![
                    WireVal::BulkString(verb_replconf()),
                    WireVal::BulkString(tok_listening_port()),
                    WireVal::BulkString(dec_digits(p as nat)),
                ],
                ReplConfigV::Capabilities(c) => seq![
                    WireVal::BulkString(verb_replconf()),
                    WireVal::BulkString(tok_capa()),
                    WireVal::BulkString(c),
                ],
            },
        ),
        CommandV::PSync { replication_id, offset } => WireVal::Array(
            seq![
                WireVal::BulkString(verb_psync()),
                WireVal::BulkString(replication_id),
                WireVal::BulkString(dec_digits_signed(offset)),
            ],
        ),
    }
}

/// Renders one section name.
fn section_name_vec(s: InfoSection) -> (r: Vec<u8>)
    ensures
        r@ == section_name(s),
{
    match s {
        InfoSection::Server => tok_server_vec(),
        InfoSection::Replication => tok_replication_vec(),
        InfoSection::Default => tok_default_vec(),
    }
}

/// Renders a signed decimal.
fn format_offset(n: isize) -> (r: Vec<u8>)
    ensures
        r@ == dec_digits_signed(n as int),
{
    if n < 0 {
        let mag = (-(n as i128)) as u128;
        let mut r: Vec<u8> = Vec::new();
        r.push(MINUS);
        let mut digs = format_u128(mag);
        r.append(&mut digs);
        proof {
            assert(r@ =~= dec_digits_signed(n as int));
        }
        r
    } else {
        format_u128(n as u128)
    }
}

impl PingCommand {
    /// Renders this command in its stable wire form.
    pub fn to_message(&self) -> (m: Message)
        ensures
            m@ == spec_to_wire((Command::Ping(*self))@),
    {
        let mut elements: Vec<Message> = Vec::new();
        elements.push(Message::bulk_string(verb_ping_vec()));
        match &self.message {
            Some(msg) => {
                elements.push(Message::bulk_string(clone_bytes(msg)));
            },
            None => {},
        }
        proof {
            crate::message::lemma_msg_seq_view_index(elements@);
            assert(msg_seq_view(elements@) =~= spec_to_wire(
                (Command::Ping(*self))@,
            )->Array_0);
        }
        Message::array(elements)
    }
}

impl EchoCommand {
    /// Renders this command in its stable wire form.
    pub fn to_message(&self) -> (m: Message)
        ensures
            m@ == spec_to_wire((Command::Echo(*self))@),
    {
        let mut elements: Vec<Message> = Vec::new();
        elements.push(Message::bulk_string(verb_echo_vec()));
        elements.push(Message::bulk_string(clone_bytes(&self.message)));
        proof {
            crate::message::lemma_msg_seq_view_index(elements@);
            assert(msg_seq_view(elements@) =~= spec_to_wire(
                (Command::Echo(*self))@,
            )->Array_0);
        }
        Message::array(elements)
    }
}

impl SetCommand {
    /// Renders this command in its stable wire form.
    pub fn to_message(&self) -> (m: Message)
        ensures
            m@ == spec_to_wire((Command::SetKey(*self))@),
    {
        let mut elements: Vec<Message> = Vec::new();
        elements.push(Message::bulk_string(verb_set_vec()));
        elements.push(Message::bulk_string(clone_bytes(&self.key)));
        elements.push(Message::bulk_string(clone_bytes(&self.value)));
        match self.expiration {
            Some(e) => {
                elements.push(Message::bulk_string(verb_px_vec()));
                elements.push(Message::bulk_string(format_u128(e)));
            },
            None => {},
        }
        proof {
            crate::message::lemma_msg_seq_view_index(elements@);
            assert(msg_seq_view(elements@) =~= spec_to_wire(
                (Command::SetKey(*self))@,
            )->Array_0);
        }
        Message::array(elements)
    }
}

impl GetCommand {
    /// Renders this command in its stable wire form.
    pub fn to_message(&self) -> (m: Message)
        ensures
            m@ == spec_to_wire((Command::Get(*self))@),
    {
        let mut elements: Vec<Message> = Vec::new();
        elements.push(Message::bulk_string(verb_get_vec()));
        elements.push(Message::bulk_string(clone_bytes(&self.key)));
        proof {
            crate::message::lemma_msg_seq_view_index(elements@);
            assert(msg_seq_view(elements@) =~= spec_to_wire(
                (Command::Get(*self))@,
            )->Array_0);
        }
        Message::array(elements)
    }
}

impl InfoCommand {
    /// Renders this command in its stable wire form.
    #[verifier::loop_isolation(false)]
    pub fn to_message(&self) -> (m: Message)
        ensures
            m@ == spec_to_wire((Command::Info(*self))@),
    {
        let ghost rendered = self.sections@.map_values(
            |s: InfoSection| WireVal::BulkString(section_name(s)),
        );
        let mut elements: Vec<Message> = Vec::new();
        elements.push(Message::bulk_string(verb_info_vec()));
        let mut i: usize = 0;
        while i < self.sections.len()
            invariant
                i <= self.sections@.len(),
                elements@.len() == i + 1,
                msg_view(elements@[0]) == WireVal::BulkString(verb_info()),
                forall|j: int|
                    0 <= j < i ==> msg_view(#[trigger] elements@[j + 1])
                        == WireVal::BulkString(section_name(self.sections@[j])),
            decreases self.sections@.len() - i,
        {
            elements.push(Message::bulk_string(section_name_vec(self.sections[i])));
            i = i + 1;
        }
        proof {
            crate::message::lemma_msg_seq_view_index(elements@);
            assert forall|j: int|
                0 <= j < msg_seq_view(elements@).len() implies #[trigger] msg_seq_view(
                elements@,
            )[j] == (seq![WireVal::BulkString(verb_info())] + rendered)[j] by {
                if j > 0 {
                    assert(msg_view(elements@[(j - 1) + 1]) == WireVal::BulkString(
                        section_name(self.sections@[j - 1]),
                    ));
                }
            }
            assert(msg_seq_view(elements@) =~= seq![WireVal::BulkString(verb_info())]
                + rendered);
        }
        Message::array(elements)
    }
}

impl ReplConfCommand {
    /// Renders this command in its stable wire form.
    pub fn to_message(&self) -> (m: Message)
        ensures
            m@ == spec_to_wire((Command::ReplConf(*self))@),
    {
        let mut elements: Vec<Message> = Vec::new();
        elements.push(Message::bulk_string(verb_replconf_vec()));
        match &self.config {
            ReplConfig::ListeningPort(p) => {
                elements.push(Message::bulk_string(tok_listening_port_vec()));
                elements.push(Message::bulk_string(format_u128(*p as u128)));
            },
            ReplConfig::Capabilities(c) => {
                elements.push(Message::bulk_string(tok_capa_vec()));
                elements.push(Message::bulk_string(clone_bytes(c)));
            },
        }
        proof {
            crate::message::lemma_msg_seq_view_index(elements@);
            assert(msg_seq_view(elements@) =~= spec_to_wire(
                (Command::ReplConf(*self))@,
            )->Array_0);
        }
        Message::array(elements)
    }
}

impl PSyncCommand {
    /// Renders this command in its stable wire form.
    pub fn to_message(&self) -> (m: Message)
        ensures
            m@ == spec_to_wire((Command::PSync(*self))@),
    {
        let mut elements: Vec<Message> = Vec::new();
        elements.push(Message::bulk_string(verb_psync_vec()));
        elements.push(Message::bulk_string(clone_bytes(&self.replication_id)));
        elements.push(Message::bulk_string(format_offset(self.offset)));
        proof {
            crate::message::lemma_msg_seq_view_index(elements@);
            assert(msg_seq_view(elements@) =~= spec_to_wire(
                (Command::PSync(*self))@,
            )->Array_0);
        }
        Message::array(elements)
    }
}

impl Command {
    /// Renders any command in its stable wire form, for replication
    /// propagation and the replica handshake.
    pub fn to_message(&self) -> (m: Message)
        ensures
            m@ == spec_to_wire(self@),
    {
        match self {
            Command::Ping(c) => c.to_message(),
            Command::Echo(c) => c.to_message(),
            Command::SetKey(c) => c.to_message(),
            Command::Get(c) => c.to_message(),
            Command::Info(c) => c.to_message(),
            Command::ReplConf(c) => c.to_message(),
            Command::PSync(c) => c.to_message(),
        }
    }
}


/// A command value as the model constructs it: `INFO` holds no
/// duplicate sections, and a `PSYNC` offset fits `isize` (parsing and
/// the constructors never produce anything else).
pub open spec fn wf_command(c: CommandV) -> bool {
    match c {
        CommandV::Info(secs) => forall|i: int, j: int|
            0 <= i < j < secs.len() ==> (#[trigger] secs[i]) != (#[trigger] secs[j]),
        CommandV::PSync { replication_id, offset } => isize::MIN <= offset <= isize::MAX,
        _ => true,
    }
}

/// Case folding takes each rendered verb to its parse token, and the
/// tokens are pairwise distinct.
proof fn lemma_verb_tokens()
    ensures
        lower(verb_ping()) == tok_ping(),
        lower(verb_echo()) == tok_echo(),
        lower(verb_set()) == tok_set(),
        lower(verb_get()) == tok_get(),
        lower(verb_info()) == tok_info(),
        lower(verb_replconf()) == tok_replconf(),
        lower(verb_psync()) == tok_psync(),
        lower(verb_px()) == tok_px(),
        tok_ping() != tok_echo(),
        tok_ping() != tok_set(),
        tok_ping() != tok_get(),
        tok_ping() != tok_info(),
        tok_ping() != tok_replconf(),
        tok_ping() != tok_psync(),
        tok_echo() != tok_set(),
        tok_echo() != tok_get(),
        tok_echo() != tok_info(),
        tok_echo() != tok_replconf(),
        tok_echo() != tok_psync(),
        tok_set() != tok_get(),
        tok_set() != tok_info(),
        tok_set() != tok_replconf(),
        tok_set() != tok_psync(),
        tok_get() != tok_info(),
        tok_get() != tok_replconf(),
        tok_get() != tok_psync(),
        tok_info() != tok_replconf(),
        tok_info() != tok_psync(),
        tok_replconf() != tok_psync(),
        tok_listening_port() != tok_capa(),
{
    assert(lower(verb_ping()) =~= tok_ping());
    assert(lower(verb_echo()) =~= tok_echo());
    assert(lower(verb_set()) =~= tok_set());
    assert(lower(verb_get()) =~= tok_get());
    assert(lower(verb_info()) =~= tok_info());
    assert(lower(verb_replconf()) =~= tok_replconf());
    assert(lower(verb_psync()) =~= tok_psync());
    assert(lower(verb_px()) =~= tok_px());
    assert(tok_ping()[0] != tok_echo()[0]);
    assert(tok_ping()[0] != tok_info()[0]);
    assert(tok_ping()[1] != tok_psync()[1]);
    assert(tok_echo()[0] != tok_info()[0]);
    assert(tok_set()[0] != tok_get()[0]);
}


/// A canonically rendered number parses back to itself.
proof fn lemma_parse_number_of_digits(n: nat)
    ensures
        spec_parse_number(dec_digits(n)) == Some(n),
{
    crate::digits::lemma_dec_digits_shape(n);
    crate::digits::lemma_dec_digits_value(n);
}

/// A canonically rendered signed number parses back to itself.
proof fn lemma_parse_signed_of_digits(v: int)
    ensures
        spec_parse_signed(dec_digits_signed(v)) == Some(v),
{
    if v < 0 {
        crate::digits::lemma_dec_digits_shape((-v) as nat);
        lemma_parse_number_of_digits((-v) as nat);
        assert(dec_digits_signed(v)[0] == MINUS);
        assert(dec_digits_signed(v).skip(1) =~= dec_digits((-v) as nat));
    } else {
        crate::digits::lemma_dec_digits_shape(v as nat);
        lemma_parse_number_of_digits(v as nat);
        assert(dec_digits_signed(v)[0] != MINUS);
    }
}

/// A rendered section name parses back to its section.
proof fn lemma_section_roundtrip(s: InfoSection)
    ensures
        spec_section(section_name(s)) == Some(s),
{
    assert(tok_default()[0] != tok_server()[0]);
    assert(tok_default()[0] != tok_replication()[0]);
    assert(tok_server()[0] != tok_replication()[0]);
}

/// Scanning the rendered section list rebuilds exactly the sections.
proof fn lemma_info_scan_render(secs: Seq<InfoSection>, args: Seq<Seq<u8>>, i: int)
    requires
        0 <= i <= secs.len(),
        args.len() == secs.len(),
        forall|j: int| 0 <= j < secs.len() ==> #[trigger] args[j] == section_name(secs[j]),
        forall|a: int, b: int|
            0 <= a < b < secs.len() ==> (#[trigger] secs[a]) != (#[trigger] secs[b]),
    ensures
        spec_info_scan(args, i, secs.take(i)) == Some(secs),
    decreases secs.len() - i,
{
    if i == secs.len() {
        assert(secs.take(i) =~= secs);
    } else {
        lemma_section_roundtrip(secs[i]);
        assert(!secs.take(i).contains(secs[i])) by {
            if secs.take(i).contains(secs[i]) {
                let a = choose|a: int| 0 <= a < i && secs.take(i)[a] == secs[i];
                assert(secs[a] == secs[i]);
            }
        }
        assert(secs.take(i).push(secs[i]) =~= secs.take(i + 1));
        lemma_info_scan_render(secs, args, i + 1);
    }
}

/// Every element of a rendered command is a Bulk String.
proof fn lemma_rendered_bulk(es: Seq<WireVal>)
    requires
        forall|j: int| 0 <= j < es.len() ==> (#[trigger] es[j]) is BulkString,
    ensures
        all_bulk(es),
        forall|j: int|
            0 <= j < es.len() ==> #[trigger] payloads(es)[j] == es[j]->BulkString_0,
{
}

/// Stability of the rendering: a command rendered by `to_message`
/// parses back to the identical command, so a replica that re-parses
/// a propagated command sees exactly what the master applied.
pub proof fn lemma_to_wire_reparse(c: CommandV)
    requires
        wf_command(c),
    ensures
        spec_parse_command(spec_to_wire(c)) == Some(c),
{
    lemma_verb_tokens();
    let es = spec_to_wire(c)->Array_0;
    let ps = payloads(es);
    let args = ps.drop_first();
    assert forall|j: int| 0 <= j < es.len() implies (#[trigger] es[j]) is BulkString by {
        if let CommandV::Info(secs) = c {
            let rendered = secs.map_values(
                |s: InfoSection| WireVal::BulkString(section_name(s)),
            );
            if j > 0 {
                assert(es[j] == rendered[j - 1]);
            }
        }
    }
    lemma_rendered_bulk(es);
    match c {
        CommandV::Ping(m) => {
            match m {
                Some(msg) => {
                    assert(args =~= seq![msg]);
                },
                None => {
                    assert(args =~= Seq::<Seq<u8>>::empty());
                },
            }
        },
        CommandV::Echo(m) => {
            assert(args =~= seq![m]);
        },
        CommandV::SetKey { key, value, expiration } => {
            match expiration {
                Some(e) => {
                    assert(args =~= seq![key, value, verb_px(), dec_digits(e as nat)]);
                    lemma_parse_number_of_digits(e as nat);
                    assert(spec_scan_px(args, 2, None) == spec_scan_px(
                        args,
                        3,
                        Some(e),
                    ));
                },
                None => {
                    assert(args =~= seq![key, value]);
                },
            }
        },
        CommandV::Get(k) => {
            assert(args =~= seq![k]);
        },
        CommandV::Info(secs) => {
            let rendered = secs.map_values(
                |s: InfoSection| WireVal::BulkString(section_name(s)),
            );
            assert(es =~= seq![WireVal::BulkString(verb_info())] + rendered);
            assert forall|j: int| 0 <= j < secs.len() implies #[trigger] args[j]
                == section_name(secs[j]) by {
                assert(es[j + 1] == rendered[j]);
            }
            assert(args.len() == secs.len());
            lemma_info_scan_render(secs, args, 0);
            assert(secs.take(0) =~= Seq::<InfoSection>::empty());
        },
        CommandV::ReplConf(cfg) => {
            match cfg {
                ReplConfigV::ListeningPort(p) => {
                    assert(args =~= seq![tok_listening_port(), dec_digits(p as nat)]);
                    lemma_parse_number_of_digits(p as nat);
                },
                ReplConfigV::Capabilities(cap) => {
                    assert(args =~= seq![tok_capa(), cap]);
                    assert(tok_capa().len() != tok_listening_port().len());
                },
            }
        },
        CommandV::PSync { replication_id, offset } => {
            assert(args =~= seq![replication_id, dec_digits_signed(offset)]);
            lemma_parse_signed_of_digits(offset);
        },
    }
}

} // verus!
