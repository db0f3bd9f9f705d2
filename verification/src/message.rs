//! The wire-protocol frame codec: the `Message` type, its mathematical
//! form `WireVal`, and byte-exact serialization.
//!
//! Four frame kinds exist. An Array is `*`, a decimal element count, CRLF,
//! then the elements' own frames. A Bulk String is `$`, a decimal byte
//! length, CRLF, the payload, CRLF. The Null Bulk String is the fixed
//! sentinel `$-1` CRLF. A Simple String is `+`, the content, CRLF.

use vstd::prelude::*;
use crate::digits::{dec_digits, lemma_digits_value_snoc, lemma_digits_value_extend_ge};

verus! {

/// Byte value of the Array marker `*`.
pub const STAR: u8 = 42;

/// Byte value of the Bulk String marker `$`.
pub const DOLLAR: u8 = 36;

/// Byte value of the Simple String marker `+`.
pub const PLUS: u8 = 43;

/// Byte value of `-`, opening a negative (null) bulk length.
pub const MINUS: u8 = 45;

/// Carriage return, first byte of the CRLF terminator.
pub const CR: u8 = 13;

/// Line feed, second byte of the CRLF terminator.
pub const LF: u8 = 10;

/// The mathematical form of one wire value, used in contracts.
pub enum WireVal {
    Array(Seq<WireVal>),
    BulkString(Seq<u8>),
    NullBulkString,
    SimpleString(Seq<u8>),
}

/// One structured wire value as held and produced by the codec.
///
/// Payloads are byte strings: the framing is byte-exact and a declared
/// length counts bytes, so the codec never goes through `char` boundaries.
#[derive(Debug, PartialEq, Eq)]
pub enum Message {
    Array(Vec<Message>),
    BulkString(Vec<u8>),
    NullBulkString,
    SimpleString(Vec<u8>),
}

/// The mathematical form of a `Message`.
pub open spec fn msg_view(m: Message) -> WireVal
    decreases m,
{
    match m {
        Message::Array(es) => WireVal::Array(msg_seq_view(es@)),
        Message::BulkString(d) => WireVal::BulkString(d@),
        Message::NullBulkString => WireVal::NullBulkString,
        Message::SimpleString(d) => WireVal::SimpleString(d@),
    }
}

/// The mathematical form of a sequence of `Message`s, element by element.
pub open spec fn msg_seq_view(s: Seq<Message>) -> Seq<WireVal>
    decreases s,
{
    if s.len() == 0 {
        Seq::empty()
    } else {
        seq![msg_view(s[0])] + msg_seq_view(s.drop_first())
    }
}

impl View for Message {
    type V = WireVal;

    open spec fn view(&self) -> WireVal {
        msg_view(*self)
    }
}

/// The CRLF terminator.
pub open spec fn crlf() -> Seq<u8> {
    seq![CR, LF]
}

/// The bytes of one serialized wire value: the exact structural inverse
/// of parsing.
pub open spec fn spec_serialize(v: WireVal) -> Seq<u8>
    decreases v,
{
    match v {
        WireVal::Array(es) => seq![STAR] + dec_digits(es.len()) + crlf() + spec_serialize_seq(es),
        WireVal::BulkString(d) => seq![DOLLAR] + dec_digits(d.len()) + crlf() + d + crlf(),
        WireVal::NullBulkString => seq![DOLLAR, MINUS, 49u8, CR, LF],
        WireVal::SimpleString(d) => seq![PLUS] + d + crlf(),
    }
}

/// The concatenated serializations of a sequence of wire values.
pub open spec fn spec_serialize_seq(es: Seq<WireVal>) -> Seq<u8>
    decreases es,
{
    if es.len() == 0 {
        Seq::empty()
    } else {
        spec_serialize(es[0]) + spec_serialize_seq(es.drop_first())
    }
}

/// The element-wise view commutes with indexing and keeps the length.
pub proof fn lemma_msg_seq_view_index(s: Seq<Message>)
    ensures
        msg_seq_view(s).len() == s.len(),
        forall|i: int| 0 <= i < s.len() ==> #[trigger] msg_seq_view(s)[i] == msg_view(s[i]),
    decreases s,
{
    if s.len() > 0 {
        lemma_msg_seq_view_index(s.drop_first());
        assert forall|i: int| 0 <= i < s.len() implies #[trigger] msg_seq_view(s)[i] == msg_view(
            s[i],
        ) by {
            if i > 0 {
                assert(msg_seq_view(s)[i] == msg_seq_view(s.drop_first())[i - 1]);
            }
        }
    }
}

/// Serializing a sequence extended by one value appends that value's bytes.
pub proof fn lemma_serialize_seq_snoc(es: Seq<WireVal>, v: WireVal)
    ensures
        spec_serialize_seq(es.push(v)) == spec_serialize_seq(es) + spec_serialize(v),
    decreases es,
{
    if es.len() == 0 {
        reveal_with_fuel(spec_serialize_seq, 3);
        assert(es =~= Seq::<WireVal>::empty());
        assert(es.push(v).drop_first() =~= Seq::<WireVal>::empty());
        assert(es.push(v)[0] == v);
        assert(spec_serialize_seq(es.push(v)) =~= spec_serialize(v));
        assert(spec_serialize_seq(es) + spec_serialize(v) =~= spec_serialize(v));
    } else {
        lemma_serialize_seq_snoc(es.drop_first(), v);
        assert(es.push(v).drop_first() =~= es.drop_first().push(v));
        assert(spec_serialize_seq(es.push(v)) =~= spec_serialize_seq(es) + spec_serialize(v));
    }
}

/// The element-wise view after appending one message.
pub proof fn lemma_msg_seq_view_snoc(s: Seq<Message>, m: Message)
    ensures
        msg_seq_view(s.push(m)) == msg_seq_view(s).push(msg_view(m)),
    decreases s,
{
    if s.len() == 0 {
        reveal_with_fuel(msg_seq_view, 3);
        assert(s =~= Seq::<Message>::empty());
        assert(s.push(m).drop_first() =~= Seq::<Message>::empty());
        assert(s.push(m)[0] == m);
        assert(msg_seq_view(s.push(m)) =~= msg_seq_view(s).push(msg_view(m)));
    } else {
        lemma_msg_seq_view_snoc(s.drop_first(), m);
        assert(s.push(m).drop_first() =~= s.drop_first().push(m));
        assert(msg_seq_view(s.push(m)) =~= msg_seq_view(s).push(msg_view(m)));
    }
}

/// A malformed frame: bad or oversized length field, unknown marker,
/// truncated input, missing CRLF, or an invalid text payload. Always
/// fatal to the connection that produced it.
#[derive(Debug, Clone, Copy, PartialEq, Eq)]
pub struct ProtocolError;

/// First index at or after `pos` holding a non-digit byte (or the end).
pub open spec fn spec_skip_digits(s: Seq<u8>, pos: int) -> int
    decreases s.len() - pos,
{
    if pos < 0 || pos >= s.len() {
        pos
    } else if crate::digits::is_digit(s[pos]) {
        spec_skip_digits(s, pos + 1)
    } else {
        pos
    }
}

/// Parses a decimal size field terminated by CRLF: at least one digit,
/// then CR LF. Yields the value and the position after the terminator.
pub open spec fn spec_parse_size(s: Seq<u8>, pos: int) -> Option<(nat, int)> {
    let end = spec_skip_digits(s, pos);
    if 0 <= pos && end > pos && end + 2 <= s.len() && s[end] == CR && s[end + 1] == LF {
        Some((crate::digits::digits_value(s.subrange(pos, end)), end + 2))
    } else {
        None
    }
}

/// First index `j >= pos` with `s[j] == CR` and `s[j + 1] == LF`.
pub open spec fn spec_find_crlf(s: Seq<u8>, pos: int) -> Option<int>
    decreases s.len() - pos,
{
    if pos < 0 || pos + 2 > s.len() {
        None
    } else if s[pos] == CR && s[pos + 1] == LF {
        Some(pos)
    } else {
        spec_find_crlf(s, pos + 1)
    }
}

/// Parses one wire value at `pos`: the type marker, then type-specific
/// framing. `None` is a protocol error.
pub open spec fn spec_parse(s: Seq<u8>, pos: int) -> Option<(WireVal, int)>
    decreases s.len() - pos, 0nat,
{
    if pos < 0 || pos >= s.len() {
        None
    } else if s[pos] == STAR {
        match spec_parse_size(s, pos + 1) {
            None => None,
            Some((count, p)) => if p <= pos || p > s.len() {
                None
            } else {
                match spec_parse_elems(s, p, count) {
                    None => None,
                    Some((es, p2)) => Some((WireVal::Array(es), p2)),
                }
            },
        }
    } else if s[pos] == DOLLAR {
        if pos + 1 < s.len() && s[pos + 1] == MINUS {
            match spec_parse_size(s, pos + 2) {
                None => None,
                Some((_len, p)) => Some((WireVal::NullBulkString, p)),
            }
        } else {
            match spec_parse_size(s, pos + 1) {
                None => None,
                Some((len, p)) => if 0 <= p && p + len + 2 <= s.len() && s[p + len] == CR && s[p
                    + len + 1] == LF && crate::utf8::is_utf8(s.subrange(p, p + len)) {
                    Some((WireVal::BulkString(s.subrange(p, p + len)), p + len + 2))
                } else {
                    None
                },
            }
        }
    } else if s[pos] == PLUS {
        match spec_find_crlf(s, pos + 1) {
            None => None,
            Some(j) => if crate::utf8::is_utf8(s.subrange(pos + 1, j)) {
                Some((WireVal::SimpleString(s.subrange(pos + 1, j)), j + 2))
            } else {
                None
            },
        }
    } else {
        None
    }
}

/// Parses exactly `count` consecutive wire values starting at `pos`.
pub open spec fn spec_parse_elems(s: Seq<u8>, pos: int, count: nat) -> Option<(Seq<WireVal>, int)>
    decreases s.len() - pos, count + 1,
{
    if count == 0 {
        Some((Seq::empty(), pos))
    } else {
        match spec_parse(s, pos) {
            None => None,
            Some((v, p)) => if p <= pos || p > s.len() {
                None
            } else {
                match spec_parse_elems(s, p, (count - 1) as nat) {
                    None => None,
                    Some((es, p2)) => Some((seq![v] + es, p2)),
                }
            },
        }
    }
}

/// A successful size parse lands strictly past `pos` and inside `s`.
pub proof fn lemma_parse_size_bounds(s: Seq<u8>, pos: int)
    requires
        spec_parse_size(s, pos) is Some,
    ensures
        pos + 3 <= spec_parse_size(s, pos)->Some_0.1 <= s.len(),
{
    lemma_skip_digits_bounds(s, pos);
}

/// The digit scan never moves backwards nor past the end.
pub proof fn lemma_skip_digits_bounds(s: Seq<u8>, pos: int)
    requires
        0 <= pos <= s.len(),
    ensures
        pos <= spec_skip_digits(s, pos) <= s.len(),
    decreases s.len() - pos,
{
    if pos < s.len() && crate::digits::is_digit(s[pos]) {
        lemma_skip_digits_bounds(s, pos + 1);
    }
}

/// A successful element-sequence parse yields `count` values and
/// consumes at least one byte per value.
pub proof fn lemma_parse_elems_bounds(s: Seq<u8>, pos: int, count: nat)
    requires
        0 <= pos <= s.len(),
        spec_parse_elems(s, pos, count) is Some,
    ensures
        spec_parse_elems(s, pos, count)->Some_0.0.len() == count,
        pos + count <= spec_parse_elems(s, pos, count)->Some_0.1 <= s.len(),
    decreases count,
{
    if count > 0 {
        let (v, p) = spec_parse(s, pos)->Some_0;
        lemma_parse_elems_bounds(s, p, (count - 1) as nat);
    }
}

/// Scans the digits of a size field and checks its CRLF terminator,
/// yielding the position after the terminator.
#[verifier::loop_isolation(false)]
fn skip_size(input: &Vec<u8>, pos: usize) -> (r: Result<usize, ProtocolError>)
    ensures
        match r {
            Ok(p) => spec_parse_size(input@, pos as int) matches Some((_v, pp)) && pp == p as int
                && pos < p <= input@.len(),
            Err(_) => spec_parse_size(input@, pos as int) is None,
        },
{
    let n = input.len();
    if pos > n {
        return Err(ProtocolError);
    }
    let mut end = pos;
    while end < n && 48 <= input[end] && input[end] <= 57
        invariant
            pos <= end <= n,
            spec_skip_digits(input@, pos as int) == spec_skip_digits(input@, end as int),
        decreases n - end,
    {
        end = end + 1;
    }
    assert(spec_skip_digits(input@, pos as int) == end);
    if end == pos || n - end < 2 || input[end] != CR || input[end + 1] != LF {
        return Err(ProtocolError);
    }
    Ok(end + 2)
}

/// Parses a decimal size field terminated by CRLF, as `spec_parse_size`
/// describes it, rejecting values that do not fit in `usize`.
#[verifier::loop_isolation(false)]
pub fn parse_size(input: &Vec<u8>, pos: usize) -> (r: Result<(usize, usize), ProtocolError>)
    ensures
        match r {
            Ok((v, p)) => spec_parse_size(input@, pos as int) == Some((v as nat, p as int)) && pos
                < p <= input@.len(),
            Err(_) => spec_parse_size(input@, pos as int) is None || spec_parse_size(
                input@,
                pos as int,
            )->Some_0.0 > usize::MAX,
        },
{
    let n = input.len();
    if pos > n {
        return Err(ProtocolError);
    }
    let mut end = pos;
    while end < n && 48 <= input[end] && input[end] <= 57
        invariant
            pos <= end <= n,
            spec_skip_digits(input@, pos as int) == spec_skip_digits(input@, end as int),
            forall|k: int| pos <= k < end ==> crate::digits::is_digit(#[trigger] input@[k]),
        decreases n - end,
    {
        end = end + 1;
    }
    assert(spec_skip_digits(input@, pos as int) == end);
    if end == pos || n - end < 2 || input[end] != CR || input[end + 1] != LF {
        return Err(ProtocolError);
    }
    let ghost digits = input@.subrange(pos as int, end as int);
    let mut val: usize = 0;
    let mut j = pos;
    while j < end
        invariant
            pos <= j <= end,
            val == crate::digits::digits_value(input@.subrange(pos as int, j as int)),
        decreases end - j,
    {
        let d = input[j] - 48;
        proof {
            lemma_digits_value_snoc(input@.subrange(pos as int, j as int), input@[j as int]);
            assert(input@.subrange(pos as int, j + 1) =~= input@.subrange(pos as int, j as int)
                .push(input@[j as int]));
        }
        if val > (usize::MAX - d as usize) / 10 {
            proof {
                assert(val * 10 + d > usize::MAX) by (nonlinear_arith)
                    requires
                        val > (usize::MAX - d as usize) / 10,
                        d <= 9,
                ;
                lemma_digits_value_extend_ge(
                    input@.subrange(pos as int, j + 1),
                    input@.subrange(j + 1, end as int),
                );
                assert(input@.subrange(pos as int, j + 1) + input@.subrange(j + 1, end as int)
                    =~= digits);
            }
            return Err(ProtocolError);
        }
        proof {
            assert(val * 10 + d <= usize::MAX) by (nonlinear_arith)
                requires
                    val <= (usize::MAX - d as usize) / 10,
                    d <= 9,
            ;
        }
        val = val * 10 + d as usize;
        j = j + 1;
    }
    Ok((val, end + 2))
}

/// Prefixes already-parsed values onto the result of parsing the rest.
pub open spec fn prepend_parsed(front: Seq<WireVal>, r: Option<(Seq<WireVal>, int)>) -> Option<
    (Seq<WireVal>, int),
> {
    match r {
        None => None,
        Some((es, p)) => Some((front + es, p)),
    }
}

/// Finds the first CRLF at or after `pos`.
#[verifier::loop_isolation(false)]
fn find_crlf(input: &Vec<u8>, pos: usize) -> (r: Option<usize>)
    ensures
        match r {
            Some(j) => spec_find_crlf(input@, pos as int) == Some(j as int) && pos <= j && j + 2
                <= input@.len(),
            None => spec_find_crlf(input@, pos as int) is None,
        },
{
    let n = input.len();
    if pos > n {
        return None;
    }
    let mut j = pos;
    while n - j >= 2
        invariant
            pos <= j <= n,
            spec_find_crlf(input@, pos as int) == spec_find_crlf(input@, j as int),
        decreases n - j,
    {
        if input[j] == CR && input[j + 1] == LF {
            return Some(j);
        }
        j = j + 1;
    }
    None
}

/// Copies `src[from .. to]` into a fresh vector.
#[verifier::loop_isolation(false)]
fn copy_range(src: &Vec<u8>, from: usize, to: usize) -> (r: Vec<u8>)
    requires
        from <= to <= src@.len(),
    ensures
        r@ == src@.subrange(from as int, to as int),
{
    let mut r: Vec<u8> = Vec::new();
    let mut i = from;
    while i < to
        invariant
            from <= i <= to,
            r@ == src@.subrange(from as int, i as int),
        decreases to - i,
    {
        r.push(src[i]);
        assert(src@.subrange(from as int, i + 1) =~= src@.subrange(from as int, i as int).push(
            src@[i as int],
        ));
        i = i + 1;
    }
    r
}

/// Appends a copy of `src` to `dst`.
fn append_bytes(dst: &mut Vec<u8>, src: &Vec<u8>)
    ensures
        final(dst)@ == old(dst)@ + src@,
{
    let mut i: usize = 0;
    while i < src.len()
        invariant
            i <= src.len(),
            dst@ == old(dst)@ + src@.take(i as int),
        decreases src.len() - i,
    {
        dst.push(src[i]);
        assert(old(dst)@ + src@.take(i as int) + seq![src@[i as int]] =~= old(dst)@ + src@.take(
            i + 1,
        ));
        i = i + 1;
    }
    assert(src@.take(src@.len() as int) =~= src@);
}

impl Message {
    /// Builds an Array wire value from its elements.
    pub fn array(elements: Vec<Message>) -> (r: Message)
        ensures
            r@ == WireVal::Array(msg_seq_view(elements@)),
    {
        Message::Array(elements)
    }

    /// Builds a Bulk String wire value carrying `data`.
    pub fn bulk_string(data: Vec<u8>) -> (r: Message)
        ensures
            r@ == WireVal::BulkString(data@),
    {
        Message::BulkString(data)
    }

    /// Builds a Simple String wire value carrying `data`.
    pub fn simple_string(data: Vec<u8>) -> (r: Message)
        ensures
            r@ == WireVal::SimpleString(data@),
    {
        Message::SimpleString(data)
    }

    /// The stock `OK` status reply.
    pub fn ok_message() -> (r: Message)
        ensures
            r@ == WireVal::SimpleString(seq![79u8, 75u8]),
    {
        let mut data: Vec<u8> = Vec::new();
        data.push(79);  // 'O'
        data.push(75);  // 'K'
        assert(data@ =~= seq![79u8, 75u8]);
        Message::SimpleString(data)
    }

    /// Parses one wire value from `input` starting at `pos`, returning
    /// the value and the position just past its frame. Any malformed,
    /// truncated or oversized frame is a `ProtocolError`, exactly when
    /// `spec_parse` yields nothing.
    #[verifier::loop_isolation(false)]
    pub fn deserialize(input: &Vec<u8>, pos: usize) -> (r: Result<(Message, usize), ProtocolError>)
        ensures
            match r {
                Ok((m, p)) => spec_parse(input@, pos as int) == Some((m@, p as int)) && pos < p
                    <= input@.len(),
                Err(_) => spec_parse(input@, pos as int) is None,
            },
        decreases input@.len() - pos,
    {
        let n = input.len();
        if pos >= n {
            return Err(ProtocolError);
        }
        let marker = input[pos];
        if marker == STAR {
            match parse_size(input, pos + 1) {
                Err(e) => {
                    proof {
                        if let Some((count, p)) = spec_parse_size(input@, pos as int + 1) {
                            lemma_parse_size_bounds(input@, pos as int + 1);
                            if spec_parse_elems(input@, p, count) is Some {
                                lemma_parse_elems_bounds(input@, p, count);
                            }
                        }
                    }
                    Err(e)
                },
                Ok((count, p0)) => {
                    let mut elems: Vec<Message> = Vec::new();
                    let mut cur = p0;
                    let mut k: usize = 0;
                    proof {
                        assert(msg_seq_view(elems@) =~= Seq::<WireVal>::empty());
                        assert(msg_seq_view(elems@) + spec_parse_elems(
                            input@,
                            p0 as int,
                            count as nat,
                        )->Some_0.0 =~= spec_parse_elems(input@, p0 as int, count as nat)
                            ->Some_0.0);
                    }
                    while k < count
                        invariant
                            k <= count,
                            pos < cur <= n,
                            spec_parse_elems(input@, p0 as int, count as nat) == prepend_parsed(
                                msg_seq_view(elems@),
                                spec_parse_elems(input@, cur as int, (count - k) as nat),
                            ),
                        decreases count - k,
                    {
                        match Message::deserialize(input, cur) {
                            Err(e) => {
                                return Err(e);
                            },
                            Ok((m, p2)) => {
                                proof {
                                    lemma_msg_seq_view_snoc(elems@, m);
                                    let rest = spec_parse_elems(
                                        input@,
                                        p2 as int,
                                        (count - k - 1) as nat,
                                    );
                                    if let Some((es, p3)) = rest {
                                        assert(msg_seq_view(elems@) + (seq![msg_view(m)] + es)
                                            =~= msg_seq_view(elems@).push(msg_view(m)) + es);
                                    }
                                }
                                elems.push(m);
                                cur = p2;
                                k = k + 1;
                            },
                        }
                    }
                    proof {
                        assert(msg_seq_view(elems@) + Seq::<WireVal>::empty() =~= msg_seq_view(
                            elems@,
                        ));
                    }
                    Ok((Message::Array(elems), cur))
                },
            }
        } else if marker == DOLLAR {
            if pos + 1 < n && input[pos + 1] == MINUS {
                match skip_size(input, pos + 2) {
                    Err(e) => Err(e),
                    Ok(p) => Ok((Message::NullBulkString, p)),
                }
            } else {
                match parse_size(input, pos + 1) {
                    Err(e) => {
                        proof {
                            if let Some((_len, p)) = spec_parse_size(input@, pos as int + 1) {
                                lemma_parse_size_bounds(input@, pos as int + 1);
                            }
                        }
                        Err(e)
                    },
                    Ok((len, p)) => {
                        if n - p < 2 || len > n - p - 2 {
                            return Err(ProtocolError);
                        }
                        if input[p + len] != CR || input[p + len + 1] != LF {
                            return Err(ProtocolError);
                        }
                        if !crate::utf8::check_utf8(input, p, p + len) {
                            return Err(ProtocolError);
                        }
                        let payload = copy_range(input, p, p + len);
                        Ok((Message::BulkString(payload), p + len + 2))
                    },
                }
            }
        } else if marker == PLUS {
            match find_crlf(input, pos + 1) {
                None => Err(ProtocolError),
                Some(j) => {
                    if !crate::utf8::check_utf8(input, pos + 1, j) {
                        return Err(ProtocolError);
                    }
                    let content = copy_range(input, pos + 1, j);
                    Ok((Message::SimpleString(content), j + 2))
                },
            }
        } else {
            Err(ProtocolError)
        }
    }

    /// Serializes one wire value into the exact bytes of its frame.
    #[verifier::loop_isolation(false)]
    pub fn serialize(&self) -> (r: Vec<u8>)
        ensures
            r@ == spec_serialize(self@),
        decreases *self,
    {
        match self {
            Message::Array(es) => {
                let mut out: Vec<u8> = Vec::new();
                out.push(STAR);
                let mut digs = crate::digits::format_usize(es.len());
                out.append(&mut digs);
                out.push(CR);
                out.push(LF);
                let ghost header = seq![STAR] + dec_digits(es@.len() as nat) + crlf();
                assert(out@ =~= header);
                proof {
                    lemma_msg_seq_view_index(es@);
                }
                let mut i: usize = 0;
                while i < es.len()
                    invariant
                        i <= es.len(),
                        out@ == header + spec_serialize_seq(msg_seq_view(es@).take(i as int)),
                        msg_seq_view(es@).len() == es@.len(),
                        forall|j: int|
                            0 <= j < es@.len() ==> #[trigger] msg_seq_view(es@)[j] == msg_view(
                                es@[j],
                            ),
                        self == Message::Array(*es),
                    decreases es.len() - i,
                {
                    let mut piece = es[i].serialize();
                    out.append(&mut piece);
                    proof {
                        let vs = msg_seq_view(es@);
                        assert(vs.take(i + 1) =~= vs.take(i as int).push(vs[i as int]));
                        lemma_serialize_seq_snoc(vs.take(i as int), vs[i as int]);
                    }
                    i = i + 1;
                }
                proof {
                    assert(msg_seq_view(es@).take(es@.len() as int) =~= msg_seq_view(es@));
                }
                out
            },
            Message::BulkString(d) => {
                let mut out: Vec<u8> = Vec::new();
                out.push(DOLLAR);
                let mut digs = crate::digits::format_usize(d.len());
                out.append(&mut digs);
                out.push(CR);
                out.push(LF);
                append_bytes(&mut out, d);
                out.push(CR);
                out.push(LF);
                assert(out@ =~= spec_serialize(self@));
                out
            },
            Message::NullBulkString => {
                let mut out: Vec<u8> = Vec::new();
                out.push(DOLLAR);
                out.push(MINUS);
                out.push(49);  // '1'
                out.push(CR);
                out.push(LF);
                assert(out@ =~= spec_serialize(self@));
                out
            },
            Message::SimpleString(d) => {
                let mut out: Vec<u8> = Vec::new();
                out.push(PLUS);
                append_bytes(&mut out, d);
                out.push(CR);
                out.push(LF);
                assert(out@ =~= spec_serialize(self@));
                out
            },
        }
    }
}

/// No CRLF pair occurs inside `d`.
pub open spec fn no_crlf(d: Seq<u8>) -> bool {
    forall|i: int| 0 <= i < d.len() - 1 ==> !(#[trigger] d[i] == CR && d[i + 1] == LF)
}

/// A constructible wire value: payloads are valid text, and a Simple
/// String holds no CRLF of its own, since its frame ends at the first
/// one. Exactly these values survive a serialization round trip.
pub open spec fn wire_wf(v: WireVal) -> bool
    decreases v,
{
    match v {
        WireVal::Array(es) => forall|i: int| 0 <= i < es.len() ==> wire_wf(#[trigger] es[i]),
        WireVal::BulkString(d) => crate::utf8::is_utf8(d),
        WireVal::NullBulkString => true,
        WireVal::SimpleString(d) => crate::utf8::is_utf8(d) && no_crlf(d),
    }
}

/// Every serialized frame is nonempty.
pub proof fn lemma_serialize_nonempty(v: WireVal)
    ensures
        spec_serialize(v).len() >= 1,
{
}

/// The digit scan stops exactly at the end of a known digit run.
pub proof fn lemma_skip_digits_exact(s: Seq<u8>, pos: int, end: int)
    requires
        0 <= pos <= end <= s.len(),
        forall|i: int| pos <= i < end ==> crate::digits::is_digit(#[trigger] s[i]),
        end == s.len() || !crate::digits::is_digit(s[end]),
    ensures
        spec_skip_digits(s, pos) == end,
    decreases end - pos,
{
    if pos < end {
        lemma_skip_digits_exact(s, pos + 1, end);
    }
}

/// The CRLF search finds exactly the first CRLF.
pub proof fn lemma_find_crlf_exact(s: Seq<u8>, pos: int, j: int)
    requires
        0 <= pos <= j,
        j + 2 <= s.len(),
        s[j] == CR,
        s[j + 1] == LF,
        forall|i: int| pos <= i < j ==> !(#[trigger] s[i] == CR && s[i + 1] == LF),
    ensures
        spec_find_crlf(s, pos) == Some(j),
    decreases j - pos,
{
    if pos < j {
        lemma_find_crlf_exact(s, pos + 1, j);
    }
}

/// A size field rendered canonically parses back to its own value.
pub proof fn lemma_parse_size_of_digits(s: Seq<u8>, pos: int, n: nat)
    requires
        0 <= pos,
        pos + dec_digits(n).len() + 2 <= s.len(),
        s.subrange(pos, pos + dec_digits(n).len() as int) == dec_digits(n),
        s[pos + dec_digits(n).len()] == CR,
        s[pos + dec_digits(n).len() + 1] == LF,
    ensures
        spec_parse_size(s, pos) == Some((n, pos + dec_digits(n).len() + 2)),
{
    let dd = dec_digits(n);
    let end = pos + dd.len() as int;
    crate::digits::lemma_dec_digits_shape(n);
    assert forall|i: int| pos <= i < end implies crate::digits::is_digit(#[trigger] s[i]) by {
        assert(s[i] == s.subrange(pos, end)[i - pos]);
    }
    assert(!crate::digits::is_digit(s[end]));
    lemma_skip_digits_exact(s, pos, end);
    crate::digits::lemma_dec_digits_value(n);
}

/// Indexing into a three-part concatenation, region by region.
proof fn lemma_cat3_index(a: Seq<u8>, b: Seq<u8>, c: Seq<u8>)
    ensures
        (a + b + c).len() == a.len() + b.len() + c.len(),
        forall|i: int| 0 <= i < a.len() ==> #[trigger] (a + b + c)[i] == a[i],
        forall|i: int|
            a.len() <= i < a.len() + b.len() ==> #[trigger] (a + b + c)[i] == b[i - a.len()],
        forall|i: int|
            a.len() + b.len() <= i < a.len() + b.len() + c.len() ==> #[trigger] (a + b + c)[i]
                == c[i - a.len() - b.len()],
{
    assert forall|i: int| 0 <= i < a.len() implies #[trigger] (a + b + c)[i] == a[i] by {
        assert((a + b + c)[i] == (a + b)[i]);
    }
    assert forall|i: int| a.len() <= i < a.len() + b.len() implies #[trigger] (a + b + c)[i] == b[i
        - a.len()] by {
        assert((a + b + c)[i] == (a + b)[i]);
    }
}

/// Indexing into a four-part concatenation, region by region.
pub(crate) proof fn lemma_cat4_index(a: Seq<u8>, b: Seq<u8>, c: Seq<u8>, d: Seq<u8>)
    ensures
        (a + b + c + d).len() == a.len() + b.len() + c.len() + d.len(),
        forall|i: int| 0 <= i < a.len() ==> #[trigger] (a + b + c + d)[i] == a[i],
        forall|i: int|
            a.len() <= i < a.len() + b.len() ==> #[trigger] (a + b + c + d)[i] == b[i - a.len()],
        forall|i: int|
            a.len() + b.len() <= i < a.len() + b.len() + c.len() ==> #[trigger] (a + b + c + d)[i]
                == c[i - a.len() - b.len()],
        forall|i: int|
            a.len() + b.len() + c.len() <= i < a.len() + b.len() + c.len() + d.len()
                ==> #[trigger] (a + b + c + d)[i] == d[i - a.len() - b.len() - c.len()],
{
    lemma_cat3_index(a, b, c);
    assert forall|i: int| 0 <= i < a.len() + b.len() + c.len() implies #[trigger] (a + b + c + d)[i]
        == (a + b + c)[i] by {}
}

/// Indexing into a five-part concatenation, region by region.
proof fn lemma_cat5_index(a: Seq<u8>, b: Seq<u8>, c: Seq<u8>, d: Seq<u8>, e: Seq<u8>)
    ensures
        (a + b + c + d + e).len() == a.len() + b.len() + c.len() + d.len() + e.len(),
        forall|i: int| 0 <= i < a.len() ==> #[trigger] (a + b + c + d + e)[i] == a[i],
        forall|i: int|
            a.len() <= i < a.len() + b.len() ==> #[trigger] (a + b + c + d + e)[i] == b[i
                - a.len()],
        forall|i: int|
            a.len() + b.len() <= i < a.len() + b.len() + c.len() ==> #[trigger] (a + b + c + d
                + e)[i] == c[i - a.len() - b.len()],
        forall|i: int|
            a.len() + b.len() + c.len() <= i < a.len() + b.len() + c.len() + d.len()
                ==> #[trigger] (a + b + c + d + e)[i] == d[i - a.len() - b.len() - c.len()],
        forall|i: int|
            a.len() + b.len() + c.len() + d.len() <= i < a.len() + b.len() + c.len() + d.len()
                + e.len() ==> #[trigger] (a + b + c + d + e)[i] == e[i - a.len() - b.len() - c.len()
                - d.len()],
{
    lemma_cat4_index(a, b, c, d);
    assert forall|i: int|
        0 <= i < a.len() + b.len() + c.len() + d.len() implies #[trigger] (a + b + c + d + e)[i]
        == (a + b + c + d)[i] by {}
}

/// Parsing starts again at a serialized frame lying inside `s`:
/// it yields back exactly the value that was serialized, ending just
/// past the frame.
#[verifier::rlimit(100)]
pub proof fn lemma_parse_of_serialize(v: WireVal, s: Seq<u8>, pos: int)
    requires
        wire_wf(v),
        0 <= pos,
        pos + spec_serialize(v).len() <= s.len(),
        s.subrange(pos, pos + spec_serialize(v).len() as int) == spec_serialize(v),
    ensures
        spec_parse(s, pos) == Some((v, pos + spec_serialize(v).len())),
    decreases v,
{
    let ser = spec_serialize(v);
    let frame_end = pos + ser.len() as int;
    assert forall|k: int| pos <= k < frame_end implies #[trigger] s[k] == ser[k - pos] by {
        assert(s.subrange(pos, frame_end)[k - pos] == s[k]);
    }
    match v {
        WireVal::Array(es) => {
            let dd = dec_digits(es.len());
            let body = spec_serialize_seq(es);
            crate::digits::lemma_dec_digits_shape(es.len());
            lemma_cat4_index(seq![STAR], dd, crlf(), body);
            assert(ser == seq![STAR] + dd + crlf() + body);
            assert(s[pos] == STAR);
            let p0 = pos + 1 + dd.len() as int + 2;
            assert forall|i: int|
                0 <= i < dd.len() implies s.subrange(pos + 1, pos + 1 + dd.len() as int)[i]
                == dd[i] by {
                assert(s[pos + 1 + i] == ser[pos + 1 + i - pos]);
            }
            assert(s.subrange(pos + 1, pos + 1 + dd.len() as int) =~= dd);
            assert(s[pos + 1 + dd.len()] == CR);
            assert(s[pos + 1 + dd.len() + 1] == LF);
            lemma_parse_size_of_digits(s, pos + 1, es.len());
            assert(spec_parse_size(s, pos + 1) == Some((es.len(), p0)));
            assert forall|i: int|
                0 <= i < body.len() implies s.subrange(p0, p0 + body.len() as int)[i]
                == body[i] by {
                assert(s[p0 + i] == ser[p0 + i - pos]);
            }
            assert(s.subrange(p0, p0 + body.len() as int) =~= body);
            lemma_parse_elems_of_serialize(es, s, p0);
            assert(spec_parse(s, pos) == Some((WireVal::Array(es), p0 + body.len())));
            assert(p0 + body.len() == frame_end);
        },
        WireVal::BulkString(d) => {
            let dd = dec_digits(d.len());
            crate::digits::lemma_dec_digits_shape(d.len());
            lemma_cat5_index(seq![DOLLAR], dd, crlf(), d, crlf());
            assert(ser == seq![DOLLAR] + dd + crlf() + d + crlf());
            assert(s[pos] == DOLLAR);
            assert(s[pos + 1] == dd[0]);
            assert(s[pos + 1] != MINUS);
            let p = pos + 1 + dd.len() as int + 2;
            assert forall|i: int|
                0 <= i < dd.len() implies s.subrange(pos + 1, pos + 1 + dd.len() as int)[i]
                == dd[i] by {
                assert(s[pos + 1 + i] == ser[pos + 1 + i - pos]);
            }
            assert(s.subrange(pos + 1, pos + 1 + dd.len() as int) =~= dd);
            assert(s[pos + 1 + dd.len()] == CR);
            assert(s[pos + 1 + dd.len() + 1] == LF);
            lemma_parse_size_of_digits(s, pos + 1, d.len());
            assert forall|i: int|
                0 <= i < d.len() implies s.subrange(p, p + d.len() as int)[i] == d[i] by {
                assert(s[p + i] == ser[p + i - pos]);
            }
            assert(s.subrange(p, p + d.len() as int) =~= d);
            assert(s[p + d.len()] == CR);
            assert(s[p + d.len() + 1] == LF);
            assert(spec_parse(s, pos) == Some((WireVal::BulkString(d), p + d.len() + 2)));
        },
        WireVal::NullBulkString => {
            assert(s[pos] == DOLLAR);
            assert(s[pos + 1] == MINUS);
            assert(s[pos + 2] == 49);
            assert(s[pos + 3] == CR);
            assert(s[pos + 4] == LF);
            lemma_skip_digits_exact(s, pos + 2, pos + 3);
            assert(spec_parse_size(s, pos + 2) == Some((
                crate::digits::digits_value(s.subrange(pos + 2, pos + 3)),
                pos + 5,
            )));
            assert(spec_parse(s, pos) == Some((WireVal::NullBulkString, pos + 5)));
        },
        WireVal::SimpleString(d) => {
            lemma_cat3_index(seq![PLUS], d, crlf());
            assert(ser == seq![PLUS] + d + crlf());
            assert(s[pos] == PLUS);
            let j = pos + 1 + d.len() as int;
            assert(s[j] == CR);
            assert(s[j + 1] == LF);
            assert forall|i: int| pos + 1 <= i < j implies !(#[trigger] s[i] == CR && s[i + 1]
                == LF) by {
                assert(s[i] == d[i - pos - 1]);
                if i + 1 < j {
                    assert(s[i + 1] == d[i + 1 - pos - 1]);
                } else {
                    assert(s[i + 1] == CR);
                }
            }
            lemma_find_crlf_exact(s, pos + 1, j);
            assert forall|i: int|
                0 <= i < d.len() implies s.subrange(pos + 1, j)[i] == d[i] by {
                assert(s[pos + 1 + i] == ser[pos + 1 + i - pos]);
            }
            assert(s.subrange(pos + 1, j) =~= d);
            assert(spec_parse(s, pos) == Some((WireVal::SimpleString(d), j + 2)));
        },
    }
}

/// The element-sequence analogue of `lemma_parse_of_serialize`.
pub proof fn lemma_parse_elems_of_serialize(es: Seq<WireVal>, s: Seq<u8>, pos: int)
    requires
        forall|i: int| 0 <= i < es.len() ==> wire_wf(#[trigger] es[i]),
        0 <= pos,
        pos + spec_serialize_seq(es).len() <= s.len(),
        s.subrange(pos, pos + spec_serialize_seq(es).len() as int) == spec_serialize_seq(es),
    ensures
        spec_parse_elems(s, pos, es.len()) == Some((es, pos + spec_serialize_seq(es).len())),
    decreases es,
{
    if es.len() == 0 {
        assert(es =~= Seq::<WireVal>::empty());
    } else {
        let ser0 = spec_serialize(es[0]);
        let rest = spec_serialize_seq(es.drop_first());
        let whole = spec_serialize_seq(es);
        assert(whole == ser0 + rest);
        let w_end = pos + whole.len() as int;
        assert forall|k: int| pos <= k < w_end implies #[trigger] s[k] == whole[k - pos] by {
            assert(s.subrange(pos, w_end)[k - pos] == s[k]);
        }
        assert forall|i: int|
            0 <= i < ser0.len() implies s.subrange(pos, pos + ser0.len() as int)[i] == ser0[i] by {
            assert(s[pos + i] == whole[pos + i - pos]);
            assert(whole[i] == ser0[i]);
        }
        assert(s.subrange(pos, pos + ser0.len() as int) =~= ser0);
        lemma_parse_of_serialize(es[0], s, pos);
        lemma_serialize_nonempty(es[0]);
        let p1 = pos + ser0.len() as int;
        assert forall|i: int|
            0 <= i < rest.len() implies s.subrange(p1, p1 + rest.len() as int)[i] == rest[i] by {
            assert(s[p1 + i] == whole[p1 + i - pos]);
            assert(whole[ser0.len() + i] == rest[i]);
        }
        assert(s.subrange(p1, p1 + rest.len() as int) =~= rest);
        lemma_parse_elems_of_serialize(es.drop_first(), s, p1);
        assert(seq![es[0]] + es.drop_first() =~= es);
        assert(spec_parse_elems(s, pos, es.len()) == Some((es, pos + whole.len())));
    }
}

/// Round trip: a well-formed wire value deserializes from its own
/// serialization, yielding the identical value and consuming exactly
/// the frame.
pub proof fn lemma_round_trip(v: WireVal)
    requires
        wire_wf(v),
    ensures
        spec_parse(spec_serialize(v), 0) == Some((v, spec_serialize(v).len() as int)),
{
    let ser = spec_serialize(v);
    assert(ser.subrange(0, ser.len() as int) =~= ser);
    lemma_parse_of_serialize(v, ser, 0);
}

} // verus!
