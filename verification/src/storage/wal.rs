//! Write-ahead-log record format.
//!
//! Binary format per entry:
//!   [total_len: u32] [crc32: u32] [entry_type: u8] [data...]
//! where `total_len` counts the type byte and the data, and the CRC-32 is
//! taken over the type byte and the data.
//!
//! Entry types:
//!   0x01 DeclareQueue    { name_len: u16, name, durable: u8 }
//!   0x02 Enqueue         { queue_len: u16, queue, msg_id: u64, exchange_len: u16, exchange,
//!                          rk_len: u16, rk, headers_len: u32, headers, body_len: u32, body }
//!   0x03 Ack             { msg_id: u64 }
//!   0x04 DeclareExchange { name_len: u16, name, kind: u8, durable: u8 }
//!   0x05 Bind            { exchange_len: u16, exchange, queue_len: u16, queue, rk_len: u16, rk }
//!
//! Reading and writing the segment files is the caller's; this module
//! builds and checks the bytes.

use vstd::prelude::*;
use vstd::string::StringSliceAdditionalSpecFns;
use crate::text::decimal::{decimal_chars, padded_decimal, zero_padded};
use crate::storage::stream::{parse_u64_bytes, parse_u64_spec};
use crate::amqp::types::{
    be16, be32, be64, from_be16, from_be32, from_be64, get_u16, get_u32, get_u64, push_all,
    copy_range, write_short, write_long, write_longlong, lemma_be16_roundtrip, lemma_be32_roundtrip,
    lemma_be64_roundtrip,
};

verus! {

/// Bytes before an entry's data: total_len(4) + crc32(4) + entry_type(1).
pub const WAL_HEADER_SIZE: usize = 9;

/// `n` more rounds of the reflected CRC-32 (IEEE) register update: shift
/// right, folding in the polynomial 0xEDB88320 when a one bit falls out.
pub open spec fn crc_rounds(c: u32, n: nat) -> u32
    decreases n,
{
    if n == 0 {
        c
    } else {
        crc_rounds(if c & 1 == 1 { (c >> 1) ^ 0xEDB8_8320u32 } else { c >> 1 }, (n - 1) as nat)
    }
}

/// The CRC-32 register after `data`, starting from all ones.
pub open spec fn crc_register(data: Seq<u8>) -> u32
    decreases data.len(),
{
    if data.len() == 0 {
        0xFFFF_FFFFu32
    } else {
        crc_rounds(crc_register(data.drop_last()) ^ (data.last() as u32), 8)
    }
}

/// The CRC-32 (IEEE) checksum of a byte sequence: the final register,
/// inverted.
pub open spec fn crc32_of(data: Seq<u8>) -> u32 {
    !crc_register(data)
}

/// Computes the CRC-32 checksum of `data`.
///
/// Calls `crc32fast::hash`, which computes the IEEE CRC-32 (reflected,
/// polynomial 0xEDB88320, initial and final value all ones); claims that
/// the result is [`crc32_of`] of exactly these bytes.
#[verifier::external_body]
pub fn crc32(data: &[u8]) -> (r: u32)
    ensures
        r == crc32_of(data@),
{
    crc32fast::hash(data)
}

/// Discriminator byte for WAL entry kinds.
#[derive(Clone, Copy, Debug, PartialEq, Eq, Structural)]
pub enum EntryType {
    DeclareQueue,
    Enqueue,
    Ack,
    DeclareExchange,
    Bind,
}

/// The tag byte of an entry type.
pub open spec fn entry_type_byte(t: EntryType) -> u8 {
    match t {
        EntryType::DeclareQueue => 1,
        EntryType::Enqueue => 2,
        EntryType::Ack => 3,
        EntryType::DeclareExchange => 4,
        EntryType::Bind => 5,
    }
}

/// The entry type a tag byte names.
pub open spec fn entry_type_of(b: u8) -> Option<EntryType> {
    if b == 1 {
        Some(EntryType::DeclareQueue)
    } else if b == 2 {
        Some(EntryType::Enqueue)
    } else if b == 3 {
        Some(EntryType::Ack)
    } else if b == 4 {
        Some(EntryType::DeclareExchange)
    } else if b == 5 {
        Some(EntryType::Bind)
    } else {
        None
    }
}

impl EntryType {
    /// The tag byte of this entry type.
    pub fn to_byte(&self) -> (r: u8)
        ensures
            r == entry_type_byte(*self),
    {
        match self {
            EntryType::DeclareQueue => 0x01,
            EntryType::Enqueue => 0x02,
            EntryType::Ack => 0x03,
            EntryType::DeclareExchange => 0x04,
            EntryType::Bind => 0x05,
        }
    }

    /// The entry type a tag byte names; `Err(())` for an unknown byte.
    pub fn try_from(value: u8) -> (r: Result<Self, ()>)
        ensures
            match entry_type_of(value) {
                Some(t) => r == Ok::<EntryType, ()>(t),
                None => r is Err,
            },
    {
        match value {
            0x01 => Ok(EntryType::DeclareQueue),
            0x02 => Ok(EntryType::Enqueue),
            0x03 => Ok(EntryType::Ack),
            0x04 => Ok(EntryType::DeclareExchange),
            0x05 => Ok(EntryType::Bind),
            _ => Err(()),
        }
    }
}

/// Tag bytes name their entry types and back.
pub proof fn lemma_entry_type_byte_roundtrip(t: EntryType)
    ensures
        entry_type_of(entry_type_byte(t)) == Some(t),
{
}

/// A deserialized WAL entry: its type and the data after the type byte.
#[derive(Clone, Debug)]
pub struct WalEntry {
    pub entry_type: EntryType,
    pub data: Vec<u8>,
}

// ─── Payload writer ───────────────────────────────────────────────────

/// Buffer builder for WAL entry payloads: `u16`-length-prefixed strings,
/// `u32`-length-prefixed byte slices and big-endian integers.
#[derive(Debug)]
pub struct WalWriter {
    pub buf: Vec<u8>,
}

/// A string with its `u16` length prefix; a length over 65535 is written
/// modulo 65536, as the `as u16` cast does.
pub open spec fn str_u16_bytes(s: Seq<u8>) -> Seq<u8> {
    be16((s.len() % 65536) as u16) + s
}

/// A byte slice with its `u32` length prefix, the length taken modulo 2^32.
pub open spec fn bytes_u32_bytes(s: Seq<u8>) -> Seq<u8> {
    be32((s.len() % 0x1_0000_0000) as u32) + s
}

impl WalWriter {
    /// An empty writer; `cap` is only a capacity hint.
    pub fn with_capacity(cap: usize) -> (r: Self)
        ensures
            r.buf@.len() == 0,
    {
        WalWriter { buf: Vec::with_capacity(cap) }
    }

    /// Appends a `u16`-length-prefixed string.
    pub fn write_str_u16(&mut self, s: &str)
        ensures
            final(self).buf@ == old(self).buf@ + str_u16_bytes(s.spec_bytes()),
    {
        let bytes = s.as_bytes();
        write_short(&mut self.buf, (bytes.len() % 65536) as u16);
        push_all(&mut self.buf, bytes);
        assert(self.buf@ =~= old(self).buf@ + str_u16_bytes(s.spec_bytes()));
    }

    /// Appends a `u32`-length-prefixed byte slice.
    pub fn write_bytes_u32(&mut self, data: &[u8])
        ensures
            final(self).buf@ == old(self).buf@ + bytes_u32_bytes(data@),
    {
        write_long(&mut self.buf, (data.len() as u64 % 0x1_0000_0000) as u32);
        push_all(&mut self.buf, data);
        assert(self.buf@ =~= old(self).buf@ + bytes_u32_bytes(data@));
    }

    /// Appends one raw byte.
    pub fn write_u8(&mut self, v: u8)
        ensures
            final(self).buf@ == old(self).buf@.push(v),
    {
        self.buf.push(v);
    }

    /// Appends a big-endian `u64`.
    pub fn write_u64(&mut self, v: u64)
        ensures
            final(self).buf@ == old(self).buf@ + be64(v),
    {
        write_longlong(&mut self.buf, v);
    }

    /// The assembled bytes.
    pub fn finish(self) -> (r: Vec<u8>)
        ensures
            r@ == self.buf@,
    {
        self.buf
    }
}

// ─── Entry framing ────────────────────────────────────────────────────

/// The bytes of one framed entry.
pub open spec fn entry_bytes(t: EntryType, data: Seq<u8>) -> Seq<u8> {
    let body = seq![entry_type_byte(t)] + data;
    be32(((1 + data.len()) % 0x1_0000_0000) as u32) + be32(crc32_of(body)) + body
}

/// Frames one entry: length, checksum, type byte and data.
pub fn encode_entry(entry_type: EntryType, data: &[u8]) -> (r: Vec<u8>)
    ensures
        r@ == entry_bytes(entry_type, data@),
{
    let mut body: Vec<u8> = Vec::new();
    body.push(entry_type.to_byte());
    push_all(&mut body, data);
    let checksum = crc32(body.as_slice());
    let l = data.len() as u64 % 0x1_0000_0000;
    let total_len: u32 = if l == 0xFFFF_FFFF { 0 } else { (l + 1) as u32 };
    assert(total_len as int == (1 + data@.len()) % 0x1_0000_0000) by (nonlinear_arith)
        requires
            l == data@.len() % 0x1_0000_0000,
            total_len == if l == 0xFFFF_FFFF { 0int } else { l + 1 },
            data@.len() >= 0,
    ;
    let mut out: Vec<u8> = Vec::new();
    write_long(&mut out, total_len);
    write_long(&mut out, checksum);
    push_all(&mut out, body.as_slice());
    assert(body@ =~= seq![entry_type_byte(entry_type)] + data@);
    assert(out@ =~= entry_bytes(entry_type, data@));
    out
}

/// The entries a segment's bytes hold, read from the start; reading stops
/// at the first truncated entry, checksum mismatch or unknown type.
pub open spec fn parse_entries_spec(bytes: Seq<u8>) -> Seq<(EntryType, Seq<u8>)>
    decreases bytes.len(),
{
    if bytes.len() < 9 {
        Seq::empty()
    } else {
        let n = from_be32(bytes.subrange(0, 4)) as int;
        if n == 0 || 8 + n > bytes.len() {
            Seq::empty()
        } else {
            let payload = bytes.subrange(8, 8 + n);
            if crc32_of(payload) != from_be32(bytes.subrange(4, 8)) {
                Seq::empty()
            } else {
                match entry_type_of(payload[0]) {
                    None => Seq::empty(),
                    Some(t) => seq![(t, payload.subrange(1, n))] + parse_entries_spec(
                        bytes.subrange(8 + n, bytes.len() as int),
                    ),
                }
            }
        }
    }
}

/// Reads and validates every entry of a segment's bytes.
pub fn parse_entries(bytes: &[u8]) -> (r: Vec<WalEntry>)
    ensures
        r@.len() == parse_entries_spec(bytes@).len(),
        forall|i: int|
            0 <= i < r@.len() ==> (#[trigger] r@[i]).entry_type == parse_entries_spec(bytes@)[i].0
                && r@[i].data@ == parse_entries_spec(bytes@)[i].1,
{
    let mut entries: Vec<WalEntry> = Vec::new();
    let mut pos: usize = 0;
    let len = bytes.len();
    let mut go = true;
    assert(bytes@.subrange(0, len as int) =~= bytes@);
    assert(Seq::new(0, |i: int| (entries@[i].entry_type, entries@[i].data@)) + parse_entries_spec(bytes@) =~= parse_entries_spec(bytes@));
    while go && len - pos >= 9
        invariant
            len == bytes@.len(),
            pos <= len,
            parse_entries_spec(bytes@) == Seq::new(
                entries@.len(),
                |i: int| (entries@[i].entry_type, entries@[i].data@),
            ) + parse_entries_spec(bytes@.subrange(pos as int, len as int)),
            !go ==> parse_entries_spec(bytes@.subrange(pos as int, len as int)).len() == 0,
        decreases len - pos, if go { 1int } else { 0int },
    {
        let ghost rest = bytes@.subrange(pos as int, len as int);
        let ghost done = Seq::new(entries@.len(), |i: int| (entries@[i].entry_type, entries@[i].data@));
        let total_len = get_u32(bytes, pos) as usize;
        let expected_crc = get_u32(bytes, pos + 4);
        assert(bytes@.subrange(pos as int, pos + 4) =~= rest.subrange(0, 4));
        assert(bytes@.subrange(pos + 4, pos + 8) =~= rest.subrange(4, 8));
        if total_len == 0 || len - pos - 8 < total_len {
            go = false;
        } else {
            let payload = copy_range(bytes, pos + 8, pos + 8 + total_len);
            assert(payload@ =~= rest.subrange(8, 8 + total_len));
            if crc32(payload.as_slice()) != expected_crc {
                go = false;
            } else {
                match EntryType::try_from(payload[0]) {
                    Ok(entry_type) => {
                        let data = copy_range(payload.as_slice(), 1, total_len);
                        let ghost next = bytes@.subrange(pos + 8 + total_len, len as int);
                        assert(rest.subrange(8 + total_len, rest.len() as int) =~= next);
                        entries.push(WalEntry { entry_type, data });
                        pos = pos + 8 + total_len;
                        proof {
                            let done2 = Seq::new(
                                entries@.len(),
                                |i: int| (entries@[i].entry_type, entries@[i].data@),
                            );
                            assert(done2 =~= done.push((entry_type, payload@.subrange(1, total_len as int))));
                            assert(done2 + parse_entries_spec(next) =~= done + parse_entries_spec(rest));
                        }
                    },
                    Err(_) => {
                        go = false;
                    },
                }
            }
        }
    }
    proof {
        let done = Seq::new(entries@.len(), |i: int| (entries@[i].entry_type, entries@[i].data@));
        let rest = bytes@.subrange(pos as int, len as int);
        assert(parse_entries_spec(rest).len() == 0);
        assert(parse_entries_spec(bytes@) =~= done);
        assert forall|i: int| 0 <= i < entries@.len() implies (#[trigger] entries@[i]).entry_type
            == parse_entries_spec(bytes@)[i].0 && entries@[i].data@ == parse_entries_spec(
            bytes@,
        )[i].1 by {
            assert(done[i] == (entries@[i].entry_type, entries@[i].data@));
        }
    }
    entries
}

/// A framed entry is read back as itself, followed by whatever the bytes
/// after it hold.
pub proof fn lemma_entry_roundtrip(t: EntryType, data: Seq<u8>, rest: Seq<u8>)
    requires
        data.len() + 1 < 0x1_0000_0000,
    ensures
        parse_entries_spec(entry_bytes(t, data) + rest) == seq![(t, data)] + parse_entries_spec(
            rest,
        ),
{
    let body = seq![entry_type_byte(t)] + data;
    let n: int = 1 + data.len() as int;
    let all = entry_bytes(t, data) + rest;
    lemma_be32_roundtrip(n as u32);
    lemma_be32_roundtrip(crc32_of(body));
    assert(all.subrange(0, 4) =~= be32(n as u32));
    assert(all.subrange(4, 8) =~= be32(crc32_of(body)));
    assert(all.subrange(8, 8 + n) =~= body);
    assert(body.subrange(1, n) =~= data);
    assert(all.subrange(8 + n, all.len() as int) =~= rest);
}

/// The bytes of entries written one after another.
pub open spec fn log_bytes(es: Seq<(EntryType, Seq<u8>)>) -> Seq<u8>
    decreases es.len(),
{
    if es.len() == 0 {
        Seq::empty()
    } else {
        entry_bytes(es[0].0, es[0].1) + log_bytes(es.drop_first())
    }
}

/// Entries written one after another are read back in order, followed by
/// whatever the bytes after them hold.
#[verifier::spinoff_prover]
#[verifier::rlimit(60)]
pub proof fn lemma_log_roundtrip(es: Seq<(EntryType, Seq<u8>)>, rest: Seq<u8>)
    requires
        forall|i: int| 0 <= i < es.len() ==> (#[trigger] es[i]).1.len() + 1 < 0x1_0000_0000,
    ensures
        parse_entries_spec(log_bytes(es) + rest) == es + parse_entries_spec(rest),
    decreases es.len(),
{
    if es.len() == 0 {
        assert(log_bytes(es) + rest =~= rest);
        assert(es + parse_entries_spec(rest) =~= parse_entries_spec(rest));
    } else {
        let tail = es.drop_first();
        assert forall|i: int| 0 <= i < tail.len() implies (#[trigger] tail[i]).1.len() + 1 < 0x1_0000_0000 by {
            assert(tail[i] == es[i + 1]);
        }
        lemma_log_roundtrip(tail, rest);
        assert(es[0].1.len() + 1 < 0x1_0000_0000);
        lemma_entry_roundtrip(es[0].0, es[0].1, log_bytes(tail) + rest);
        assert(log_bytes(es) + rest =~= entry_bytes(es[0].0, es[0].1) + (log_bytes(tail) + rest));
        assert(es =~= seq![es[0]] + tail);
        assert(seq![(es[0].0, es[0].1)] + (tail + parse_entries_spec(rest)) =~= es + parse_entries_spec(rest));
    }
}

/// Whether the first frame of `b` is whole but its checksum does not
/// match its body.
pub open spec fn checksum_broken(b: Seq<u8>) -> bool {
    let n = from_be32(b.subrange(0, 4)) as int;
    &&& b.len() >= 9
    &&& n > 0
    &&& 8 + n <= b.len()
    &&& crc32_of(b.subrange(8, 8 + n)) != from_be32(b.subrange(4, 8))
}

/// A frame whose checksum does not match ends the read: a log of written
/// entries followed by it reads back as exactly the written entries, and
/// nothing after the damaged frame is read.
pub proof fn lemma_damaged_frame_ends_read(es: Seq<(EntryType, Seq<u8>)>, damaged: Seq<u8>)
    requires
        forall|i: int| 0 <= i < es.len() ==> (#[trigger] es[i]).1.len() + 1 < 0x1_0000_0000,
        checksum_broken(damaged),
    ensures
        parse_entries_spec(log_bytes(es) + damaged) == es,
{
    lemma_log_roundtrip(es, damaged);
    assert(parse_entries_spec(damaged) == Seq::<(EntryType, Seq<u8>)>::empty());
    assert(es + Seq::<(EntryType, Seq<u8>)>::empty() =~= es);
}

// ─── Payloads ─────────────────────────────────────────────────────────

/// The payload of a `DeclareQueue` entry.
pub fn declare_queue_payload(name: &str, durable: bool) -> (r: Vec<u8>)
    ensures
        r@ == str_u16_bytes(name.spec_bytes()).push(if durable { 1u8 } else { 0u8 }),
{
    let mut w = WalWriter::with_capacity(3);
    w.write_str_u16(name);
    w.write_u8(if durable { 1 } else { 0 });
    w.finish()
}

/// The payload of an `Enqueue` entry.
pub fn enqueue_payload(
    queue: &str,
    msg_id: u64,
    exchange: &str,
    routing_key: &str,
    headers: &[u8],
    body: &[u8],
) -> (r: Vec<u8>)
    ensures
        r@ == str_u16_bytes(queue.spec_bytes()) + be64(msg_id) + str_u16_bytes(exchange.spec_bytes())
            + str_u16_bytes(routing_key.spec_bytes()) + bytes_u32_bytes(headers@) + bytes_u32_bytes(
            body@,
        ),
{
    let mut w = WalWriter::with_capacity(0);
    w.write_str_u16(queue);
    w.write_u64(msg_id);
    w.write_str_u16(exchange);
    w.write_str_u16(routing_key);
    w.write_bytes_u32(headers);
    w.write_bytes_u32(body);
    w.finish()
}

/// The payload of an `Ack` entry: the message ID, big-endian.
pub fn ack_payload(msg_id: u64) -> (r: Vec<u8>)
    ensures
        r@ == be64(msg_id),
{
    let mut w = WalWriter::with_capacity(8);
    w.write_u64(msg_id);
    let r = w.finish();
    assert(r@ =~= be64(msg_id));
    r
}

/// The payload of a `DeclareExchange` entry.
pub fn declare_exchange_payload(name: &str, kind: u8, durable: bool) -> (r: Vec<u8>)
    ensures
        r@ == str_u16_bytes(name.spec_bytes()).push(kind).push(if durable { 1u8 } else { 0u8 }),
{
    let mut w = WalWriter::with_capacity(4);
    w.write_str_u16(name);
    w.write_u8(kind);
    w.write_u8(if durable { 1 } else { 0 });
    w.finish()
}

/// The payload of a `Bind` entry.
pub fn bind_payload(exchange: &str, queue: &str, routing_key: &str) -> (r: Vec<u8>)
    ensures
        r@ == str_u16_bytes(exchange.spec_bytes()) + str_u16_bytes(queue.spec_bytes())
            + str_u16_bytes(routing_key.spec_bytes()),
{
    let mut w = WalWriter::with_capacity(6);
    w.write_str_u16(exchange);
    w.write_str_u16(queue);
    w.write_str_u16(routing_key);
    w.finish()
}

/// Whether an entry of `data_len` bytes of data no longer fits in the
/// active segment, so that a new segment must be started first.
pub fn needs_rotation(active_size: u64, data_len: usize, max_size: u64) -> (r: bool)
    ensures
        r == (active_size + WAL_HEADER_SIZE + data_len > max_size),
{
    if max_size < 9 || data_len as u64 > max_size - 9 {
        true
    } else {
        active_size > max_size - 9 - data_len as u64
    }
}

// ─── Reading one enqueue record ───────────────────────────────────────

/// Why a stored record could not be read as an enqueued message.
#[derive(Clone, Copy, Debug, PartialEq, Eq, Structural)]
pub enum RecordError {
    /// The record's length field is zero.
    InvalidTotalLen,
    /// The bytes end before the record or one of its fields does.
    Truncated,
    /// The checksum does not match.
    CrcMismatch,
    /// The record is not an `Enqueue` entry.
    NotEnqueue,
}

/// Reads a `u16`-prefixed field at `pos`; the position after it.
pub open spec fn skip_str_u16(p: Seq<u8>, pos: int) -> Option<int> {
    if pos + 2 > p.len() {
        None
    } else {
        let n = from_be16(p.subrange(pos, pos + 2)) as int;
        if pos + 2 + n > p.len() {
            None
        } else {
            Some(pos + 2 + n)
        }
    }
}

/// The headers and body of an enqueue payload, or `None` when a field is
/// cut short.
pub open spec fn enqueue_fields_spec(p: Seq<u8>) -> Option<(Seq<u8>, Seq<u8>)> {
    match skip_str_u16(p, 0) {
        None => None,
        Some(a) => if a + 8 > p.len() {
            None
        } else {
            match skip_str_u16(p, a + 8) {
                None => None,
                Some(b) => match skip_str_u16(p, b) {
                    None => None,
                    Some(c) => if c + 4 > p.len() {
                        None
                    } else {
                        let hn = from_be32(p.subrange(c, c + 4)) as int;
                        if c + 4 + hn + 4 > p.len() {
                            None
                        } else {
                            let d = c + 4 + hn;
                            let bn = from_be32(p.subrange(d, d + 4)) as int;
                            if d + 4 + bn > p.len() {
                                None
                            } else {
                                Some((p.subrange(c + 4, c + 4 + hn), p.subrange(d + 4, d + 4 + bn)))
                            }
                        }
                    }
                },
            }
        },
    }
}

/// What reading a stored enqueue record gives.
pub open spec fn read_record_spec(rec: Seq<u8>) -> Result<(Seq<u8>, Seq<u8>), RecordError> {
    if rec.len() < 9 {
        Err(RecordError::Truncated)
    } else {
        let n = from_be32(rec.subrange(0, 4)) as int;
        if n < 1 {
            Err(RecordError::InvalidTotalLen)
        } else if 8 + n > rec.len() {
            Err(RecordError::Truncated)
        } else {
            let body = rec.subrange(8, 8 + n);
            if crc32_of(body) != from_be32(rec.subrange(4, 8)) {
                Err(RecordError::CrcMismatch)
            } else if body[0] != 2 {
                Err(RecordError::NotEnqueue)
            } else {
                match enqueue_fields_spec(body.subrange(1, n)) {
                    None => Err(RecordError::Truncated),
                    Some(hb) => Ok(hb),
                }
            }
        }
    }
}

/// Skips a `u16`-prefixed field at `pos`.
fn skip_field_u16(p: &[u8], pos: usize) -> (r: Option<usize>)
    requires
        pos <= p@.len(),
    ensures
        match skip_str_u16(p@, pos as int) {
            Some(q) => r == Some(q as usize),
            None => r is None,
        },
{
    if p.len() - pos < 2 {
        return None;
    }
    let n = get_u16(p, pos) as usize;
    if p.len() - pos - 2 < n {
        return None;
    }
    Some(pos + 2 + n)
}

/// Reads the headers and body out of a stored `Enqueue` record: the
/// 9-byte header and the data after it. The checksum, type and every
/// field length are checked.
pub fn read_enqueue_record(rec: &[u8]) -> (r: Result<(Vec<u8>, Vec<u8>), RecordError>)
    ensures
        match read_record_spec(rec@) {
            Ok((h, b)) => r matches Ok((h2, b2)) && h2@ == h && b2@ == b,
            Err(e) => r == Err::<(Vec<u8>, Vec<u8>), RecordError>(e),
        },
{
    if rec.len() < 9 {
        return Err(RecordError::Truncated);
    }
    let n = get_u32(rec, 0) as usize;
    let expected = get_u32(rec, 4);
    if n < 1 {
        return Err(RecordError::InvalidTotalLen);
    }
    if rec.len() - 8 < n {
        return Err(RecordError::Truncated);
    }
    let body = copy_range(rec, 8, 8 + n);
    if crc32(body.as_slice()) != expected {
        return Err(RecordError::CrcMismatch);
    }
    if body[0] != 2 {
        return Err(RecordError::NotEnqueue);
    }
    let p = copy_range(body.as_slice(), 1, n);
    let pl = p.len();
    let a = match skip_field_u16(p.as_slice(), 0) {
        Some(a) => a,
        None => return Err(RecordError::Truncated),
    };
    if pl - a < 8 {
        return Err(RecordError::Truncated);
    }
    let b = match skip_field_u16(p.as_slice(), a + 8) {
        Some(b) => b,
        None => return Err(RecordError::Truncated),
    };
    let c = match skip_field_u16(p.as_slice(), b) {
        Some(c) => c,
        None => return Err(RecordError::Truncated),
    };
    if pl - c < 4 {
        return Err(RecordError::Truncated);
    }
    let hn = get_u32(p.as_slice(), c) as usize;
    if pl - c - 4 < hn || pl - c - 4 - hn < 4 {
        return Err(RecordError::Truncated);
    }
    let d = c + 4 + hn;
    let bn = get_u32(p.as_slice(), d) as usize;
    if pl - d - 4 < bn {
        return Err(RecordError::Truncated);
    }
    let headers = copy_range(p.as_slice(), c + 4, d);
    let body_out = copy_range(p.as_slice(), d + 4, d + 4 + bn);
    Ok((headers, body_out))
}

/// A `u16`-prefixed field placed after `pre` is skipped to its end.
pub proof fn lemma_skip_field(pre: Seq<u8>, f: Seq<u8>, post: Seq<u8>)
    requires
        f.len() < 65536,
    ensures
        skip_str_u16(pre + str_u16_bytes(f) + post, pre.len() as int) == Some(
            pre.len() + 2 + f.len() as int,
        ),
{
    let p = pre + str_u16_bytes(f) + post;
    let k = pre.len() as int;
    lemma_be16_roundtrip(f.len() as u16);
    assert(p.subrange(k, k + 2) =~= be16(f.len() as u16));
}

/// A `u32`-prefixed field placed after `pre` has its length and bytes
/// where the reader looks for them.
pub proof fn lemma_u32_field(pre: Seq<u8>, f: Seq<u8>, post: Seq<u8>)
    requires
        f.len() < 0x1_0000_0000,
    ensures
        ({
            let p = pre + bytes_u32_bytes(f) + post;
            let k = pre.len() as int;
            &&& from_be32(p.subrange(k, k + 4)) == f.len()
            &&& p.subrange(k + 4, k + 4 + f.len()) == f
            &&& p.len() == k + 4 + f.len() + post.len()
        }),
{
    let p = pre + bytes_u32_bytes(f) + post;
    let k = pre.len() as int;
    lemma_be32_roundtrip(f.len() as u32);
    assert(p.subrange(k, k + 4) =~= be32(f.len() as u32));
    assert(p.subrange(k + 4, k + 4 + f.len()) =~= f);
}

/// The fields of an enqueue payload are found where `enqueue_payload`
/// wrote them.
#[verifier::rlimit(100)]
#[verifier::spinoff_prover]
pub proof fn lemma_enqueue_fields_roundtrip(
    queue: Seq<u8>,
    msg_id: u64,
    exchange: Seq<u8>,
    routing_key: Seq<u8>,
    headers: Seq<u8>,
    body: Seq<u8>,
)
    requires
        queue.len() < 65536,
        exchange.len() < 65536,
        routing_key.len() < 65536,
        headers.len() < 0x1_0000_0000,
        body.len() < 0x1_0000_0000,
    ensures
        enqueue_fields_spec(
            str_u16_bytes(queue) + be64(msg_id) + str_u16_bytes(exchange) + str_u16_bytes(routing_key)
                + bytes_u32_bytes(headers) + bytes_u32_bytes(body),
        ) == Some((headers, body)),
{
    let q = str_u16_bytes(queue);
    let m = be64(msg_id);
    let e = str_u16_bytes(exchange);
    let k = str_u16_bytes(routing_key);
    let h = bytes_u32_bytes(headers);
    let bd = bytes_u32_bytes(body);
    let p = q + m + e + k + h + bd;
    let a: int = 2 + queue.len() as int;
    let bb: int = a + 8 + 2 + exchange.len();
    let c: int = bb + 2 + routing_key.len();
    let d: int = c + 4 + headers.len();
    assert(skip_str_u16(p, 0) == Some(a)) by {
        assert(p =~= Seq::<u8>::empty() + q + (m + e + k + h + bd));
        lemma_skip_field(Seq::<u8>::empty(), queue, m + e + k + h + bd);
    }
    assert(skip_str_u16(p, a + 8) == Some(bb)) by {
        assert(p =~= (q + m) + e + (k + h + bd));
        lemma_skip_field(q + m, exchange, k + h + bd);
    }
    assert(skip_str_u16(p, bb) == Some(c)) by {
        assert(p =~= (q + m + e) + k + (h + bd));
        lemma_skip_field(q + m + e, routing_key, h + bd);
    }
    assert(from_be32(p.subrange(c, c + 4)) == headers.len() && p.subrange(c + 4, d) == headers)
        by {
        assert(p =~= (q + m + e + k) + h + bd);
        lemma_u32_field(q + m + e + k, headers, bd);
    }
    assert(from_be32(p.subrange(d, d + 4)) == body.len() && p.subrange(d + 4, d + 4 + body.len())
        == body && p.len() == d + 4 + body.len()) by {
        assert(p =~= (q + m + e + k + h) + bd + Seq::<u8>::empty());
        lemma_u32_field(q + m + e + k + h, body, Seq::<u8>::empty());
    }
    lemma_fields_at(p, a, bb, c, d, headers, body);
}

/// Once each field has been found at its place, the payload reads as the
/// headers and body found there.
proof fn lemma_fields_at(p: Seq<u8>, a: int, b: int, c: int, d: int, headers: Seq<u8>, body: Seq<u8>)
    requires
        skip_str_u16(p, 0) == Some(a),
        a + 8 <= b,
        skip_str_u16(p, a + 8) == Some(b),
        skip_str_u16(p, b) == Some(c),
        d == c + 4 + headers.len(),
        from_be32(p.subrange(c, c + 4)) == headers.len(),
        p.subrange(c + 4, d) == headers,
        from_be32(p.subrange(d, d + 4)) == body.len(),
        p.subrange(d + 4, d + 4 + body.len()) == body,
        p.len() == d + 4 + body.len(),
    ensures
        enqueue_fields_spec(p) == Some((headers, body)),
{
}

/// An enqueued message written with `encode_entry` and `enqueue_payload`
/// reads back with the headers and body it was written with.
pub proof fn lemma_enqueue_record_roundtrip(
    queue: Seq<u8>,
    msg_id: u64,
    exchange: Seq<u8>,
    routing_key: Seq<u8>,
    headers: Seq<u8>,
    body: Seq<u8>,
)
    requires
        queue.len() < 65536,
        exchange.len() < 65536,
        routing_key.len() < 65536,
        (str_u16_bytes(queue) + be64(msg_id) + str_u16_bytes(exchange) + str_u16_bytes(routing_key)
            + bytes_u32_bytes(headers) + bytes_u32_bytes(body)).len() + 1 < 0x1_0000_0000,
    ensures
        read_record_spec(
            entry_bytes(
                EntryType::Enqueue,
                str_u16_bytes(queue) + be64(msg_id) + str_u16_bytes(exchange) + str_u16_bytes(
                    routing_key,
                ) + bytes_u32_bytes(headers) + bytes_u32_bytes(body),
            ),
        ) == Ok::<(Seq<u8>, Seq<u8>), RecordError>((headers, body)),
{
    let p = str_u16_bytes(queue) + be64(msg_id) + str_u16_bytes(exchange) + str_u16_bytes(
        routing_key,
    ) + bytes_u32_bytes(headers) + bytes_u32_bytes(body);
    lemma_enqueue_fields_roundtrip(queue, msg_id, exchange, routing_key, headers, body);
    lemma_record_framing(p);
}

/// A framed `Enqueue` entry reads as its payload's fields.
proof fn lemma_record_framing(p: Seq<u8>)
    requires
        p.len() + 1 < 0x1_0000_0000,
    ensures
        read_record_spec(entry_bytes(EntryType::Enqueue, p)) == match enqueue_fields_spec(p) {
            None => Err(RecordError::Truncated),
            Some(hb) => Ok::<(Seq<u8>, Seq<u8>), RecordError>(hb),
        },
{
    let n: int = 1 + p.len() as int;
    let b = seq![2u8] + p;
    let rec = entry_bytes(EntryType::Enqueue, p);
    assert(seq![entry_type_byte(EntryType::Enqueue)] + p =~= b);
    assert((1 + p.len()) % 0x1_0000_0000 == n);
    assert(from_be32(rec.subrange(0, 4)) == n) by {
        lemma_be32_roundtrip(n as u32);
        assert(rec.subrange(0, 4) =~= be32(n as u32));
    }
    assert(from_be32(rec.subrange(4, 8)) == crc32_of(b)) by {
        lemma_be32_roundtrip(crc32_of(b));
        assert(rec.subrange(4, 8) =~= be32(crc32_of(b)));
    }
    assert(rec.subrange(8, 8 + n) == b && rec.len() == 8 + n) by {
        assert(rec.subrange(8, 8 + n) =~= b);
    }
    assert(b.subrange(1, n) =~= p);
    lemma_record_parts(rec, b, p);
}

/// A record whose length and checksum fields describe the body after them.
proof fn lemma_record_parts(rec: Seq<u8>, b: Seq<u8>, p: Seq<u8>)
    requires
        b.len() >= 1,
        b[0] == 2,
        b.subrange(1, b.len() as int) == p,
        rec.len() == 8 + b.len(),
        from_be32(rec.subrange(0, 4)) == b.len(),
        from_be32(rec.subrange(4, 8)) == crc32_of(b),
        rec.subrange(8, 8 + b.len() as int) == b,
    ensures
        read_record_spec(rec) == match enqueue_fields_spec(p) {
            None => Err(RecordError::Truncated),
            Some(hb) => Ok::<(Seq<u8>, Seq<u8>), RecordError>(hb),
        },
{
}

// ─── Segment files ────────────────────────────────────────────────────

/// Width of the zero-padded id in a segment file name.
pub const SEGMENT_ID_WIDTH: usize = 16;

/// The file name of segment `id`: the id in decimal, zero-padded to 16
/// digits, then `.seg`.
pub fn segment_file_name(id: u64) -> (r: String)
    ensures
        r@ == zero_padded(decimal_chars(id as nat), 16) + ".seg"@,
{
    let mut s = padded_decimal(id, SEGMENT_ID_WIDTH);
    s.append(".seg");
    s
}

/// The position of the last `.` in `s`, or `None`.
pub open spec fn last_dot(s: Seq<u8>) -> Option<int>
    decreases s.len(),
{
    if s.len() == 0 {
        None
    } else if s.last() == 46u8 {
        Some(s.len() - 1)
    } else {
        last_dot(s.drop_last())
    }
}

/// The segment id a file name stands for: the name is a decimal `u64`
/// followed by the extension `.seg` (the last `.` of the name, not its
/// first byte).
pub open spec fn segment_id_spec(name: Seq<u8>) -> Option<u64> {
    match last_dot(name) {
        Some(i) => if i > 0 && name.subrange(i + 1, name.len() as int) == seq![115u8, 101u8, 103u8] {
            parse_u64_spec(name.subrange(0, i))
        } else {
            None
        },
        None => None,
    }
}

/// Reads the id of a segment file from its name.
pub fn segment_id_of(name: &str) -> (r: Option<u64>)
    ensures
        r == segment_id_spec(name.spec_bytes()),
{
    let b = name.as_bytes();
    let mut i: usize = b.len();
    assert(b@.subrange(0, i as int) =~= b@);
    while i > 0
        invariant
            i <= b@.len(),
            b@ == name.spec_bytes(),
            last_dot(b@) == last_dot(b@.subrange(0, i as int)),
        decreases i,
    {
        let ghost pre = b@.subrange(0, i as int);
        assert(pre.drop_last() =~= b@.subrange(0, i - 1));
        assert(pre.last() == b@[i - 1]);
        if b[i - 1] == 46 {
            let dot = i - 1;
            if dot == 0 || b.len() - dot != 4 || b[dot + 1] != 115 || b[dot + 2] != 101 || b[dot + 3] != 103 {
                proof {
                    assert(last_dot(b@) == Some(dot as int));
                    let ext = b@.subrange(dot + 1, b@.len() as int);
                    if dot > 0 && b.len() - dot == 4 {
                        assert(ext[0] == b@[dot + 1]);
                        assert(ext[1] == b@[dot + 2]);
                        assert(ext[2] == b@[dot + 3]);
                    }
                    if dot > 0 {
                        assert(ext != seq![115u8, 101u8, 103u8]) by {
                            if b.len() - dot == 4 {
                                assert(!(ext[0] == 115u8 && ext[1] == 101u8 && ext[2] == 103u8));
                            } else {
                                assert(ext.len() != 3);
                            }
                        }
                    }
                    assert(segment_id_spec(b@) is None);
                }
                return None;
            }
            assert(b@.subrange(dot + 1, b@.len() as int) =~= seq![115u8, 101u8, 103u8]);
            let stem = copy_range(b, 0, dot);
            return parse_u64_bytes(stem.as_slice());
        }
        i = i - 1;
    }
    assert(b@.subrange(0, 0) =~= Seq::<u8>::empty());
    None
}

/// The ids of the segment files among `names`, in the order listed.
pub open spec fn listed_segment_ids(names: Seq<Seq<u8>>) -> Seq<u64>
    decreases names.len(),
{
    if names.len() == 0 {
        Seq::empty()
    } else {
        let prev = listed_segment_ids(names.drop_last());
        match segment_id_spec(names.last()) {
            Some(id) => prev.push(id),
            None => prev,
        }
    }
}

/// Whether `s` is in ascending order.
pub open spec fn ascending(s: Seq<u64>) -> bool {
    forall|i: int, j: int| 0 <= i < j < s.len() ==> s[i] <= s[j]
}

/// The names of a directory listing seen as bytes.
pub open spec fn name_bytes(names: Seq<String>) -> Seq<Seq<u8>> {
    names.map_values(|n: String| vstd::utf8::encode_utf8(n@))
}

/// The ids of the segment files in a directory listing, ascending.
pub fn segment_ids(names: &[String]) -> (r: Vec<u64>)
    ensures
        ascending(r@),
        r@.to_multiset() == listed_segment_ids(name_bytes(names@)).to_multiset(),
{
    let mut out: Vec<u64> = Vec::new();
    let mut i: usize = 0;
    proof {
        assert(name_bytes(names@).subrange(0, 0) =~= Seq::<Seq<u8>>::empty());
        assert(out@.to_multiset() =~= vstd::multiset::Multiset::<u64>::empty()) by {
            broadcast use vstd::seq_lib::group_to_multiset_ensures;
        }
        assert(Seq::<u64>::empty().to_multiset() =~= vstd::multiset::Multiset::<u64>::empty()) by {
            broadcast use vstd::seq_lib::group_to_multiset_ensures;
        }
    }
    while i < names.len()
        invariant
            i <= names@.len(),
            ascending(out@),
            out@.to_multiset() == listed_segment_ids(name_bytes(names@).subrange(0, i as int)).to_multiset(),
        decreases names@.len() - i,
    {
        let ghost nb = name_bytes(names@);
        let ghost pre = nb.subrange(0, i + 1);
        assert(pre.drop_last() =~= nb.subrange(0, i as int));
        assert(pre.last() == vstd::utf8::encode_utf8(names@[i as int]@));
        match segment_id_of(names[i].as_str()) {
            Some(id) => {
                let mut pos: usize = 0;
                while pos < out.len() && out[pos] <= id
                    invariant
                        pos <= out@.len(),
                        forall|k: int| 0 <= k < pos ==> out@[k] <= id,
                    decreases out@.len() - pos,
                {
                    pos = pos + 1;
                }
                let ghost before = out@;
                out.insert(pos, id);
                proof {
                    assert forall|a: int, b: int| 0 <= a < b < out@.len() implies out@[a] <= out@[b] by {
                        if b < pos {
                        } else if b == pos {
                            assert(out@[a] == before[a]);
                        } else if a < pos {
                            assert(before[a] <= id);
                            assert(id < before[pos as int] || pos == before.len());
                            assert(before[pos as int] <= before[b - 1]);
                        } else if a == pos {
                            assert(id < before[pos as int]);
                            assert(before[pos as int] <= before[b - 1]);
                        } else {
                            assert(out@[a] == before[a - 1]);
                            assert(out@[b] == before[b - 1]);
                        }
                    }
                    assert(out@ == before.insert(pos as int, id));
                    assert(listed_segment_ids(pre) == listed_segment_ids(nb.subrange(0, i as int)).push(id));
                    vstd::seq_lib::to_multiset_build(listed_segment_ids(nb.subrange(0, i as int)), id);
                    vstd::seq_lib::to_multiset_insert(before, pos as int, id);
                    assert(out@.to_multiset() == before.to_multiset().insert(id));
                    assert(out@.to_multiset() == listed_segment_ids(pre).to_multiset());
                }
            },
            None => {
                assert(listed_segment_ids(pre) == listed_segment_ids(nb.subrange(0, i as int)));
            },
        }
        i = i + 1;
    }
    assert(name_bytes(names@).subrange(0, i as int) =~= name_bytes(names@));
    out
}

} // verus!
