//! Recovery from the write-ahead log: the entries are read back and
//! applied in order to a fresh broker, which starts with the default
//! exchanges and no queues.
//!
//! Only durable queues and exchanges are restored; an enqueued message is
//! restored, marked redelivered, unless an `Ack` entry anywhere in the log
//! names its id and as long as its queue exists at that point. An entry
//! whose data does not read is skipped.

use vstd::prelude::*;
use vstd::utf8::*;
use vstd::string::*;
use crate::amqp::types::{from_be16, from_be32, from_be64, get_u16, get_u32, get_u64, copy_range, string_from_utf8};
use crate::storage::wal::{EntryType, WalEntry, str_u16_bytes, bytes_u32_bytes};
use crate::amqp::types::{be16, be32, be64, lemma_be16_roundtrip, lemma_be32_roundtrip, lemma_be64_roundtrip};
use crate::routing::exchange::{Binding, Exchange, ExchangeType, create_default_exchanges, has_binding};
use crate::routing::topic::str_eq;
use crate::queue::message::Message;

verus! {

/// Why the data of a log entry does not read.
#[derive(Debug, Clone, Copy, PartialEq, Eq, Structural)]
pub enum ReplayError {
    /// The data ends before a field does.
    UnexpectedEof,
    /// A name that is not UTF-8.
    InvalidUtf8,
    /// An exchange-type byte that names no exchange type.
    InvalidExchangeType(u8),
}

/// A cursor over the data of one log entry.
#[derive(Clone, Debug)]
pub struct ReplayReader<'a> {
    pub data: &'a [u8],
    pub offset: usize,
}

/// A `u16`-prefixed UTF-8 string at `pos`: its bytes and the position
/// after it.
#[verifier::opaque]
pub open spec fn read_str16(s: Seq<u8>, pos: int) -> Result<(Seq<u8>, int), ReplayError> {
    if pos + 2 > s.len() {
        Err(ReplayError::UnexpectedEof)
    } else {
        let n = from_be16(s.subrange(pos, pos + 2)) as int;
        if pos + 2 + n > s.len() {
            Err(ReplayError::UnexpectedEof)
        } else if !valid_utf8(s.subrange(pos + 2, pos + 2 + n)) {
            Err(ReplayError::InvalidUtf8)
        } else {
            Ok((s.subrange(pos + 2, pos + 2 + n), pos + 2 + n))
        }
    }
}

/// A `u32`-prefixed byte string at `pos`: its bytes and the position
/// after it.
#[verifier::opaque]
pub open spec fn read_bytes32(s: Seq<u8>, pos: int) -> Result<(Seq<u8>, int), ReplayError> {
    if pos + 4 > s.len() {
        Err(ReplayError::UnexpectedEof)
    } else {
        let n = from_be32(s.subrange(pos, pos + 4)) as int;
        if pos + 4 + n > s.len() {
            Err(ReplayError::UnexpectedEof)
        } else {
            Ok((s.subrange(pos + 4, pos + 4 + n), pos + 4 + n))
        }
    }
}

impl<'a> ReplayReader<'a> {
    /// A reader at the start of `data`.
    pub fn new(data: &'a [u8]) -> (r: Self)
        ensures
            r.data@ == data@,
            r.offset == 0,
    {
        ReplayReader { data, offset: 0 }
    }

    /// Reads one byte.
    pub fn read_u8(&mut self) -> (r: Result<u8, ReplayError>)
        requires
            old(self).offset <= old(self).data@.len(),
        ensures
            final(self).data == old(self).data,
            final(self).offset <= final(self).data@.len(),
            old(self).offset + 1 <= old(self).data@.len() ==> r == Ok::<u8, ReplayError>(
                old(self).data@[old(self).offset as int],
            ) && final(self).offset == old(self).offset + 1,
            old(self).offset + 1 > old(self).data@.len() ==> r == Err::<u8, ReplayError>(
                ReplayError::UnexpectedEof,
            ),
    {
        if self.data.len() - self.offset < 1 {
            return Err(ReplayError::UnexpectedEof);
        }
        let v = self.data[self.offset];
        self.offset = self.offset + 1;
        Ok(v)
    }

    /// Reads a big-endian `u16`.
    pub fn read_u16(&mut self) -> (r: Result<u16, ReplayError>)
        requires
            old(self).offset <= old(self).data@.len(),
        ensures
            final(self).data == old(self).data,
            final(self).offset <= final(self).data@.len(),
            old(self).offset + 2 <= old(self).data@.len() ==> r == Ok::<u16, ReplayError>(
                from_be16(old(self).data@.subrange(old(self).offset as int, old(self).offset + 2)),
            ) && final(self).offset == old(self).offset + 2,
            old(self).offset + 2 > old(self).data@.len() ==> r == Err::<u16, ReplayError>(
                ReplayError::UnexpectedEof,
            ),
    {
        if self.data.len() - self.offset < 2 {
            return Err(ReplayError::UnexpectedEof);
        }
        let v = get_u16(self.data, self.offset);
        self.offset = self.offset + 2;
        Ok(v)
    }

    /// Reads a big-endian `u32`.
    pub fn read_u32(&mut self) -> (r: Result<u32, ReplayError>)
        requires
            old(self).offset <= old(self).data@.len(),
        ensures
            final(self).data == old(self).data,
            final(self).offset <= final(self).data@.len(),
            old(self).offset + 4 <= old(self).data@.len() ==> r == Ok::<u32, ReplayError>(
                from_be32(old(self).data@.subrange(old(self).offset as int, old(self).offset + 4)),
            ) && final(self).offset == old(self).offset + 4,
            old(self).offset + 4 > old(self).data@.len() ==> r == Err::<u32, ReplayError>(
                ReplayError::UnexpectedEof,
            ),
    {
        if self.data.len() - self.offset < 4 {
            return Err(ReplayError::UnexpectedEof);
        }
        let v = get_u32(self.data, self.offset);
        self.offset = self.offset + 4;
        Ok(v)
    }

    /// Reads a big-endian `u64`.
    pub fn read_u64(&mut self) -> (r: Result<u64, ReplayError>)
        requires
            old(self).offset <= old(self).data@.len(),
        ensures
            final(self).data == old(self).data,
            final(self).offset <= final(self).data@.len(),
            old(self).offset + 8 <= old(self).data@.len() ==> r == Ok::<u64, ReplayError>(
                from_be64(old(self).data@.subrange(old(self).offset as int, old(self).offset + 8)),
            ) && final(self).offset == old(self).offset + 8,
            old(self).offset + 8 > old(self).data@.len() ==> r == Err::<u64, ReplayError>(
                ReplayError::UnexpectedEof,
            ),
    {
        if self.data.len() - self.offset < 8 {
            return Err(ReplayError::UnexpectedEof);
        }
        let v = get_u64(self.data, self.offset);
        self.offset = self.offset + 8;
        Ok(v)
    }

    /// Reads `len` bytes.
    pub fn read_slice(&mut self, len: usize) -> (r: Result<&'a [u8], ReplayError>)
        requires
            old(self).offset <= old(self).data@.len(),
        ensures
            final(self).data == old(self).data,
            final(self).offset <= final(self).data@.len(),
            old(self).offset + len <= old(self).data@.len() ==> (r matches Ok(s) && s@
                == old(self).data@.subrange(old(self).offset as int, old(self).offset + len))
                && final(self).offset == old(self).offset + len,
            old(self).offset + len > old(self).data@.len() ==> r == Err::<&'a [u8], ReplayError>(
                ReplayError::UnexpectedEof,
            ),
    {
        if self.data.len() - self.offset < len {
            return Err(ReplayError::UnexpectedEof);
        }
        let s = vstd::slice::slice_subrange(self.data, self.offset, self.offset + len);
        self.offset = self.offset + len;
        Ok(s)
    }

    /// Reads a `u16`-prefixed UTF-8 string.
    pub fn read_string_u16(&mut self) -> (r: Result<String, ReplayError>)
        requires
            old(self).offset <= old(self).data@.len(),
        ensures
            final(self).data == old(self).data,
            final(self).offset <= final(self).data@.len(),
            match read_str16(old(self).data@, old(self).offset as int) {
                Ok((b, p)) => (r matches Ok(s) && encode_utf8(s@) == b) && final(self).offset == p,
                Err(e) => r == Err::<String, ReplayError>(e),
            },
    {
        proof {
            reveal(read_str16);
        }
        let len = self.read_u16()? as usize;
        let bytes = self.read_slice(len)?;
        match string_from_utf8(bytes) {
            Some(s) => Ok(s),
            None => Err(ReplayError::InvalidUtf8),
        }
    }

    /// Reads a `u32`-prefixed byte string.
    pub fn read_bytes_u32(&mut self) -> (r: Result<Vec<u8>, ReplayError>)
        requires
            old(self).offset <= old(self).data@.len(),
        ensures
            final(self).data == old(self).data,
            final(self).offset <= final(self).data@.len(),
            match read_bytes32(old(self).data@, old(self).offset as int) {
                Ok((b, p)) => (r matches Ok(v) && v@ == b) && final(self).offset == p,
                Err(e) => r == Err::<Vec<u8>, ReplayError>(e),
            },
    {
        proof {
            reveal(read_bytes32);
        }
        let len = self.read_u32()? as usize;
        let bytes = self.read_slice(len)?;
        Ok(copy_range(bytes, 0, bytes.len()))
    }
}

// ─── Entry records ────────────────────────────────────────────────────

/// What a `DeclareQueue` entry says: the queue's name and whether it is
/// durable.
pub open spec fn declare_queue_record(d: Seq<u8>) -> Result<(Seq<u8>, bool), ReplayError> {
    match read_str16(d, 0) {
        Err(e) => Err(e),
        Ok((name, p)) => if p + 1 > d.len() {
            Err(ReplayError::UnexpectedEof)
        } else {
            Ok((name, d[p] == 1))
        },
    }
}

/// The queue and message id at the front of an `Enqueue` entry, and where
/// the rest starts.
pub open spec fn enqueue_head(d: Seq<u8>) -> Result<(Seq<u8>, u64, int), ReplayError> {
    match read_str16(d, 0) {
        Err(e) => Err(e),
        Ok((queue, p)) => if p + 8 > d.len() {
            Err(ReplayError::UnexpectedEof)
        } else {
            Ok((queue, from_be64(d.subrange(p, p + 8)), p + 8))
        },
    }
}

/// A message recorded by an `Enqueue` entry.
#[derive(Clone, Debug)]
pub struct EnqueueRecord {
    pub queue: String,
    pub msg_id: u64,
    pub exchange: String,
    pub routing_key: String,
    pub headers: Vec<u8>,
    pub body: Vec<u8>,
}

/// The exchange, routing key, headers and body after the head of an
/// `Enqueue` entry.
pub open spec fn enqueue_tail(d: Seq<u8>, p: int) -> Result<(Seq<u8>, Seq<u8>, Seq<u8>, Seq<u8>), ReplayError> {
    match read_str16(d, p) {
        Err(e) => Err(e),
        Ok((ex, p1)) => match read_str16(d, p1) {
            Err(e) => Err(e),
            Ok((rk, p2)) => match read_bytes32(d, p2) {
                Err(e) => Err(e),
                Ok((h, p3)) => match read_bytes32(d, p3) {
                    Err(e) => Err(e),
                    Ok((b, _)) => Ok((ex, rk, h, b)),
                },
            },
        },
    }
}

/// The exchange type an exchange-type byte of the log names.
pub open spec fn exchange_kind_of(b: u8) -> Option<ExchangeType> {
    if b == 0 {
        Some(ExchangeType::Direct)
    } else if b == 1 {
        Some(ExchangeType::Fanout)
    } else if b == 2 {
        Some(ExchangeType::Topic)
    } else if b == 3 {
        Some(ExchangeType::Headers)
    } else {
        None
    }
}

/// What a `DeclareExchange` entry says: `None` for a non-durable exchange
/// (whatever its type byte), else the name and type.
pub open spec fn declare_exchange_record(d: Seq<u8>) -> Result<Option<(Seq<u8>, ExchangeType)>, ReplayError> {
    match read_str16(d, 0) {
        Err(e) => Err(e),
        Ok((name, p)) => if p + 1 > d.len() || p + 2 > d.len() {
            Err(ReplayError::UnexpectedEof)
        } else if d[p + 1] != 1 {
            Ok(None)
        } else {
            match exchange_kind_of(d[p]) {
                Some(k) => Ok(Some((name, k))),
                None => Err(ReplayError::InvalidExchangeType(d[p])),
            }
        },
    }
}

/// What a `Bind` entry says: exchange, queue and routing key.
pub open spec fn bind_record(d: Seq<u8>) -> Result<(Seq<u8>, Seq<u8>, Seq<u8>), ReplayError> {
    match read_str16(d, 0) {
        Err(e) => Err(e),
        Ok((ex, p1)) => match read_str16(d, p1) {
            Err(e) => Err(e),
            Ok((q, p2)) => match read_str16(d, p2) {
                Err(e) => Err(e),
                Ok((rk, _)) => Ok((ex, q, rk)),
            },
        },
    }
}

/// Reads a `DeclareQueue` entry.
pub fn decode_declare_queue(data: &[u8]) -> (r: Result<(String, bool), ReplayError>)
    ensures
        match declare_queue_record(data@) {
            Ok((n, dur)) => r matches Ok((s, b)) && encode_utf8(s@) == n && b == dur,
            Err(e) => r == Err::<(String, bool), ReplayError>(e),
        },
{
    let mut rd = ReplayReader::new(data);
    let name = rd.read_string_u16()?;
    let durable = rd.read_u8()? == 1;
    Ok((name, durable))
}

/// Reads the queue and id of an `Enqueue` entry, and the rest of it too
/// unless the id is among `acked` (then `Ok(None)`, whatever follows).
pub fn decode_enqueue(data: &[u8], acked: &[u64]) -> (r: Result<Option<EnqueueRecord>, ReplayError>)
    ensures
        match enqueue_head(data@) {
            Err(e) => r == Err::<Option<EnqueueRecord>, ReplayError>(e),
            Ok((q, id, p)) => if acked@.contains(id) {
                r matches Ok(None)
            } else {
                match enqueue_tail(data@, p) {
                    Err(e) => r == Err::<Option<EnqueueRecord>, ReplayError>(e),
                    Ok((ex, rk, h, b)) => r matches Ok(Some(rec)) && encode_utf8(rec.queue@) == q
                        && rec.msg_id == id && encode_utf8(rec.exchange@) == ex && encode_utf8(
                        rec.routing_key@,
                    ) == rk && rec.headers@ == h && rec.body@ == b,
                }
            },
        },
{
    let mut rd = ReplayReader::new(data);
    let queue = rd.read_string_u16()?;
    let msg_id = rd.read_u64()?;
    if contains_id(acked, msg_id) {
        return Ok(None);
    }
    let exchange = rd.read_string_u16()?;
    let routing_key = rd.read_string_u16()?;
    let headers = rd.read_bytes_u32()?;
    let body = rd.read_bytes_u32()?;
    Ok(Some(EnqueueRecord { queue, msg_id, exchange, routing_key, headers, body }))
}

/// Reads a `DeclareExchange` entry.
pub fn decode_declare_exchange(data: &[u8]) -> (r: Result<Option<(String, ExchangeType)>, ReplayError>)
    ensures
        match declare_exchange_record(data@) {
            Ok(None) => r matches Ok(None),
            Ok(Some((n, k))) => r matches Ok(Some((s, k2))) && encode_utf8(s@) == n && k2 == k,
            Err(e) => r == Err::<Option<(String, ExchangeType)>, ReplayError>(e),
        },
{
    let mut rd = ReplayReader::new(data);
    let name = rd.read_string_u16()?;
    let kind_byte = rd.read_u8()?;
    let durable = rd.read_u8()? == 1;
    if !durable {
        return Ok(None);
    }
    let kind = match kind_byte {
        0x00 => ExchangeType::Direct,
        0x01 => ExchangeType::Fanout,
        0x02 => ExchangeType::Topic,
        0x03 => ExchangeType::Headers,
        _ => {
            return Err(ReplayError::InvalidExchangeType(kind_byte));
        },
    };
    Ok(Some((name, kind)))
}

/// Reads a `Bind` entry.
pub fn decode_bind(data: &[u8]) -> (r: Result<(String, String, String), ReplayError>)
    ensures
        match bind_record(data@) {
            Ok((e, q, k)) => r matches Ok((a, b, c)) && encode_utf8(a@) == e && encode_utf8(b@)
                == q && encode_utf8(c@) == k,
            Err(e) => r == Err::<(String, String, String), ReplayError>(e),
        },
{
    let mut rd = ReplayReader::new(data);
    let exchange = rd.read_string_u16()?;
    let queue = rd.read_string_u16()?;
    let routing_key = rd.read_string_u16()?;
    Ok((exchange, queue, routing_key))
}

/// Whether `id` occurs in `ids`.
pub(crate) fn contains_id(ids: &[u64], id: u64) -> (r: bool)
    ensures
        r == ids@.contains(id),
{
    let mut i: usize = 0;
    while i < ids.len()
        invariant
            i <= ids@.len(),
            forall|j: int| 0 <= j < i ==> ids@[j] != id,
        decreases ids@.len() - i,
    {
        if ids[i] == id {
            return true;
        }
        i = i + 1;
    }
    false
}

/// The message id an `Ack` entry names, when its data holds one.
pub open spec fn ack_id(e: WalEntry) -> Option<u64> {
    if e.entry_type == EntryType::Ack && e.data@.len() >= 8 {
        Some(from_be64(e.data@.subrange(0, 8)))
    } else {
        None
    }
}

/// The ids named by the first `n` entries that are `Ack`s, in log order.
pub open spec fn acked_ids(es: Seq<WalEntry>, n: int) -> Seq<u64>
    decreases n,
{
    if n <= 0 {
        Seq::empty()
    } else {
        let prev = acked_ids(es, n - 1);
        match ack_id(es[n - 1]) {
            Some(id) => prev.push(id),
            None => prev,
        }
    }
}

/// An id is acknowledged exactly when one of the `Ack` entries names it.
pub proof fn lemma_acked_ids_members(es: Seq<WalEntry>, n: int, id: u64)
    requires
        0 <= n <= es.len(),
    ensures
        acked_ids(es, n).contains(id) <==> exists|i: int| 0 <= i < n && #[trigger] ack_id(es[i]) == Some(id),
    decreases n,
{
    if n > 0 {
        lemma_acked_ids_members(es, n - 1, id);
        let prev = acked_ids(es, n - 1);
        if let Some(x) = ack_id(es[n - 1]) {
            let now = prev.push(x);
            if now.contains(id) {
                let k = choose|k: int| 0 <= k < now.len() && now[k] == id;
                if k < prev.len() {
                    assert(prev[k] == id);
                }
            }
            if prev.contains(id) {
                let k = choose|k: int| 0 <= k < prev.len() && prev[k] == id;
                assert(now[k] == id);
            }
            if x == id {
                assert(now[now.len() - 1] == id);
            }
        }
    }
}

/// The ids named by the `Ack` entries of a log, in log order.
pub fn collect_acked_ids(entries: &[WalEntry]) -> (r: Vec<u64>)
    ensures
        r@ == acked_ids(entries@, entries@.len() as int),
{
    let mut out: Vec<u64> = Vec::new();
    let mut i: usize = 0;
    while i < entries.len()
        invariant
            i <= entries@.len(),
            out@ == acked_ids(entries@, i as int),
        decreases entries@.len() - i,
    {
        let e = &entries[i];
        if e.entry_type == EntryType::Ack && e.data.len() >= 8 {
            let id = get_u64(e.data.as_slice(), 0);
            out.push(id);
        }
        i = i + 1;
    }
    out
}

// ─── Recovered state ──────────────────────────────────────────────────

/// A restored queue and the messages restored into it, in log order.
#[derive(Debug)]
pub struct RecoveredQueue {
    pub name: String,
    pub messages: Vec<Message>,
}

/// What recovery rebuilds: the durable queues (in order of first
/// declaration) and the exchanges (the defaults, then restored ones in
/// order of first declaration).
#[derive(Debug)]
pub struct RecoveredState {
    pub queues: Vec<RecoveredQueue>,
    pub exchanges: Vec<Exchange>,
}

/// The model of a restored message.
pub struct MessageModel {
    pub id: u64,
    pub exchange: Seq<u8>,
    pub routing_key: Seq<u8>,
    pub headers: Seq<u8>,
    pub body: Seq<u8>,
    pub redelivered: bool,
}

/// The model of a restored queue.
pub struct QueueModel {
    pub name: Seq<u8>,
    pub messages: Seq<MessageModel>,
}

/// The model of an exchange: name, type, durability and the
/// `(queue, routing key)` pairs it binds.
pub struct ExchangeModel {
    pub name: Seq<u8>,
    pub kind: ExchangeType,
    pub durable: bool,
    pub bindings: Seq<(Seq<u8>, Seq<u8>)>,
}

/// The model of the recovered state.
pub struct ReplayModel {
    pub queues: Seq<QueueModel>,
    pub exchanges: Seq<ExchangeModel>,
}

pub open spec fn message_model(m: Message) -> MessageModel {
    MessageModel {
        id: m.id,
        exchange: encode_utf8(m.exchange@),
        routing_key: encode_utf8(m.routing_key@),
        headers: m.headers@,
        body: m.body@,
        redelivered: m.redelivered,
    }
}

pub open spec fn messages_model(ms: Seq<Message>) -> Seq<MessageModel> {
    ms.map_values(|m: Message| message_model(m))
}

pub open spec fn bindings_model(bs: Seq<Binding>) -> Seq<(Seq<u8>, Seq<u8>)> {
    bs.map_values(|b: Binding| binding_model(b))
}

pub open spec fn queue_model(q: RecoveredQueue) -> QueueModel {
    QueueModel {
        name: encode_utf8(q.name@),
        messages: messages_model(q.messages@),
    }
}

pub open spec fn binding_model(b: Binding) -> (Seq<u8>, Seq<u8>) {
    (encode_utf8(b.queue_name@), encode_utf8(b.routing_key@))
}

pub open spec fn exchange_model(e: Exchange) -> ExchangeModel {
    ExchangeModel {
        name: encode_utf8(e.name@),
        kind: e.kind,
        durable: e.durable,
        bindings: bindings_model(e.bindings@),
    }
}

pub open spec fn queues_model(qs: Seq<RecoveredQueue>) -> Seq<QueueModel> {
    qs.map_values(|q: RecoveredQueue| queue_model(q))
}

pub open spec fn exchanges_model(xs: Seq<Exchange>) -> Seq<ExchangeModel> {
    xs.map_values(|e: Exchange| exchange_model(e))
}

impl RecoveredState {
    /// The model of this state.
    pub open spec fn model(&self) -> ReplayModel {
        ReplayModel {
            queues: queues_model(self.queues@),
            exchanges: exchanges_model(self.exchanges@),
        }
    }

    /// Every binding that recovery adds has no header requirement.
    pub open spec fn wf(&self) -> bool {
        forall|i: int, j: int|
            0 <= i < self.exchanges@.len() && 0 <= j < self.exchanges@[i].bindings@.len()
                ==> (#[trigger] self.exchanges@[i].bindings@[j]).headers_match is None
    }
}

/// The position of the first queue named `name`, or -1.
pub open spec fn queue_index(qs: Seq<QueueModel>, name: Seq<u8>) -> int
    decreases qs.len(),
{
    if qs.len() == 0 {
        -1
    } else if qs.last().name == name {
        let r = queue_index(qs.drop_last(), name);
        if r < 0 { qs.len() - 1 } else { r }
    } else {
        queue_index(qs.drop_last(), name)
    }
}

/// The position of the first exchange named `name`, or -1.
pub open spec fn exchange_index(xs: Seq<ExchangeModel>, name: Seq<u8>) -> int
    decreases xs.len(),
{
    if xs.len() == 0 {
        -1
    } else if xs.last().name == name {
        let r = exchange_index(xs.drop_last(), name);
        if r < 0 { xs.len() - 1 } else { r }
    } else {
        exchange_index(xs.drop_last(), name)
    }
}

/// Adds a binding unless the same pair is already there.
pub open spec fn bind_pair(bs: Seq<(Seq<u8>, Seq<u8>)>, q: Seq<u8>, k: Seq<u8>) -> Seq<(Seq<u8>, Seq<u8>)> {
    if bs.contains((q, k)) {
        bs
    } else {
        bs.push((q, k))
    }
}

/// Binds `(q, k)` to the exchange named `ex`, if there is one.
pub open spec fn bind_in(m: ReplayModel, ex: Seq<u8>, q: Seq<u8>, k: Seq<u8>) -> ReplayModel {
    let i = exchange_index(m.exchanges, ex);
    if i < 0 {
        m
    } else {
        let x = m.exchanges[i];
        ReplayModel {
            queues: m.queues,
            exchanges: m.exchanges.update(i, ExchangeModel { bindings: bind_pair(x.bindings, q, k), ..x }),
        }
    }
}

/// The effect of one log entry on the recovered state; `acked` holds the
/// ids acknowledged anywhere in the log.
pub open spec fn entry_effect(m: ReplayModel, e: WalEntry, acked: Seq<u64>) -> ReplayModel {
    let d = e.data@;
    match e.entry_type {
        EntryType::DeclareQueue => match declare_queue_record(d) {
            Ok((name, true)) => {
                let m1 = if queue_index(m.queues, name) >= 0 {
                    m
                } else {
                    ReplayModel {
                        queues: m.queues.push(QueueModel { name, messages: Seq::empty() }),
                        exchanges: m.exchanges,
                    }
                };
                bind_in(m1, Seq::empty(), name, name)
            },
            _ => m,
        },
        EntryType::Enqueue => match enqueue_head(d) {
            Ok((q, id, p)) => if acked.contains(id) {
                m
            } else {
                match enqueue_tail(d, p) {
                    Ok((ex, rk, h, b)) => {
                        let i = queue_index(m.queues, q);
                        if i < 0 {
                            m
                        } else {
                            let qm = m.queues[i];
                            let msg = MessageModel {
                                id,
                                exchange: ex,
                                routing_key: rk,
                                headers: h,
                                body: b,
                                redelivered: true,
                            };
                            ReplayModel {
                                queues: m.queues.update(
                                    i,
                                    QueueModel { name: qm.name, messages: qm.messages.push(msg) },
                                ),
                                exchanges: m.exchanges,
                            }
                        }
                    },
                    Err(_) => m,
                }
            },
            Err(_) => m,
        },
        EntryType::Ack => m,
        EntryType::DeclareExchange => match declare_exchange_record(d) {
            Ok(Some((name, kind))) => if exchange_index(m.exchanges, name) >= 0 {
                m
            } else {
                ReplayModel {
                    queues: m.queues,
                    exchanges: m.exchanges.push(
                        ExchangeModel { name, kind, durable: true, bindings: Seq::empty() },
                    ),
                }
            },
            _ => m,
        },
        EntryType::Bind => match bind_record(d) {
            Ok((ex, q, k)) => bind_in(m, ex, q, k),
            Err(_) => m,
        },
    }
}

/// The state after applying the first `n` entries to `m`.
pub open spec fn replay_model(m: ReplayModel, es: Seq<WalEntry>, acked: Seq<u64>, n: int) -> ReplayModel
    decreases n,
{
    if n <= 0 {
        m
    } else {
        entry_effect(replay_model(m, es, acked, n - 1), es[n - 1], acked)
    }
}

/// The model of the exchanges a fresh broker starts with.
pub open spec fn default_exchanges_model() -> Seq<ExchangeModel> {
    seq![
        ExchangeModel { name: encode_utf8(""@), kind: ExchangeType::Direct, durable: true, bindings: Seq::empty() },
        ExchangeModel { name: encode_utf8("amq.direct"@), kind: ExchangeType::Direct, durable: true, bindings: Seq::empty() },
        ExchangeModel { name: encode_utf8("amq.fanout"@), kind: ExchangeType::Fanout, durable: true, bindings: Seq::empty() },
        ExchangeModel { name: encode_utf8("amq.topic"@), kind: ExchangeType::Topic, durable: true, bindings: Seq::empty() },
        ExchangeModel { name: encode_utf8("amq.headers"@), kind: ExchangeType::Headers, durable: true, bindings: Seq::empty() },
    ]
}

/// The model of a fresh broker: the default exchanges and no queues.
pub open spec fn initial_model() -> ReplayModel {
    ReplayModel { queues: Seq::empty(), exchanges: default_exchanges_model() }
}

/// Equal UTF-8 encodings come from equal strings.
proof fn lemma_utf8_injective(a: Seq<char>, b: Seq<char>)
    ensures
        (encode_utf8(a) == encode_utf8(b)) == (a == b),
{
    encode_utf8_decode_utf8(a);
    encode_utf8_decode_utf8(b);
}

/// Finds the queue named `name`.
fn find_queue(qs: &Vec<RecoveredQueue>, name: &str) -> (r: Option<usize>)
    ensures
        ({
            let i = queue_index(queues_model(qs@), name.spec_bytes());
            &&& i < 0 ==> r is None
            &&& i >= 0 ==> (r matches Some(j) && j == i)
        }),
        r matches Some(i) ==> i < qs@.len(),
{
    let ghost all = queues_model(qs@);
    let mut i: usize = 0;
    while i < qs.len()
        invariant
            i <= qs@.len(),
            all == queues_model(qs@),
            queue_index(all.subrange(0, i as int), name.spec_bytes()) < 0,
        decreases qs@.len() - i,
    {
        let same = str_eq(qs[i].name.as_str(), name);
        proof {
            lemma_utf8_injective(qs@[i as int].name@, name@);
            let pre = all.subrange(0, i + 1);
            assert(pre.drop_last() =~= all.subrange(0, i as int));
            assert(pre.last() == queue_model(qs@[i as int]));
            if same {
                assert(queue_index(pre, name.spec_bytes()) == i);
                lemma_index_prefix_q(all, name.spec_bytes(), i + 1);
            }
        }
        if same {
            return Some(i);
        }
        i = i + 1;
    }
    assert(all.subrange(0, i as int) =~= all);
    None
}

/// A match found in a prefix is the match of the whole sequence.
proof fn lemma_index_prefix_q(qs: Seq<QueueModel>, name: Seq<u8>, n: int)
    requires
        0 <= n <= qs.len(),
        queue_index(qs.subrange(0, n), name) >= 0,
    ensures
        queue_index(qs, name) == queue_index(qs.subrange(0, n), name),
    decreases qs.len() - n,
{
    if n < qs.len() {
        let pre = qs.subrange(0, n + 1);
        assert(pre.drop_last() =~= qs.subrange(0, n));
        lemma_index_prefix_q(qs, name, n + 1);
    } else {
        assert(qs.subrange(0, n) =~= qs);
    }
}

/// A match found in a prefix is the match of the whole sequence.
proof fn lemma_index_prefix_x(xs: Seq<ExchangeModel>, name: Seq<u8>, n: int)
    requires
        0 <= n <= xs.len(),
        exchange_index(xs.subrange(0, n), name) >= 0,
    ensures
        exchange_index(xs, name) == exchange_index(xs.subrange(0, n), name),
    decreases xs.len() - n,
{
    if n < xs.len() {
        let pre = xs.subrange(0, n + 1);
        assert(pre.drop_last() =~= xs.subrange(0, n));
        lemma_index_prefix_x(xs, name, n + 1);
    } else {
        assert(xs.subrange(0, n) =~= xs);
    }
}

/// Finds the exchange named `name`.
fn find_exchange(xs: &Vec<Exchange>, name: &str) -> (r: Option<usize>)
    ensures
        ({
            let i = exchange_index(exchanges_model(xs@), name.spec_bytes());
            &&& i < 0 ==> r is None
            &&& i >= 0 ==> (r matches Some(j) && j == i)
        }),
        r matches Some(i) ==> i < xs@.len(),
{
    let ghost all = exchanges_model(xs@);
    let mut i: usize = 0;
    while i < xs.len()
        invariant
            i <= xs@.len(),
            all == exchanges_model(xs@),
            exchange_index(all.subrange(0, i as int), name.spec_bytes()) < 0,
        decreases xs@.len() - i,
    {
        let same = str_eq(xs[i].name.as_str(), name);
        proof {
            lemma_utf8_injective(xs@[i as int].name@, name@);
            let pre = all.subrange(0, i + 1);
            assert(pre.drop_last() =~= all.subrange(0, i as int));
            assert(pre.last() == exchange_model(xs@[i as int]));
            if same {
                assert(exchange_index(pre, name.spec_bytes()) == i);
                lemma_index_prefix_x(all, name.spec_bytes(), i + 1);
            }
        }
        if same {
            return Some(i);
        }
        i = i + 1;
    }
    assert(all.subrange(0, i as int) =~= all);
    None
}

impl RecoveredState {
    /// A fresh broker: the default exchanges and no queues.
    pub fn new() -> (r: Self)
        ensures
            r.model() == initial_model(),
            r.wf(),
    {
        let r = RecoveredState { queues: Vec::new(), exchanges: create_default_exchanges() };
        assert(r.model().queues =~= Seq::<QueueModel>::empty());
        assert forall|i: int| 0 <= i < 5 implies r.model().exchanges[i] == default_exchanges_model()[i] by {
            assert(r.exchanges@[i].durable);
            assert(bindings_model(r.exchanges@[i].bindings@) =~= Seq::<(Seq<u8>, Seq<u8>)>::empty());
        }
        assert(r.model().exchanges =~= default_exchanges_model());
        r
    }

    /// Binds `queue` with `routing_key` to the exchange named `exchange`,
    /// if there is one.
    fn bind(&mut self, exchange: &str, queue: &str, routing_key: &str)
        requires
            old(self).wf(),
        ensures
            final(self).wf(),
            final(self).model() == bind_in(old(self).model(), exchange.spec_bytes(), queue.spec_bytes(), routing_key.spec_bytes()),
    {
        match find_exchange(&self.exchanges, exchange) {
            None => {},
            Some(i) => {
                let ghost m0 = self.model();
                let mut x = Exchange::new(String::new(), ExchangeType::Direct, false);
                self.exchanges.set_and_swap(i, &mut x);
                let ghost old_b = x.bindings@;
                let b = Binding {
                    queue_name: queue.to_owned(),
                    routing_key: routing_key.to_owned(),
                    headers_match: None,
                };
                x.add_binding(b);
                proof {
                    let bm = bindings_model(old_b);
                    let pair = (queue.spec_bytes(), routing_key.spec_bytes());
                    if has_binding(old_b, queue@, routing_key@) {
                        let j = choose|j: int| 0 <= j < old_b.len() && #[trigger] old_b[j].queue_name@ == queue@ && old_b[j].routing_key@ == routing_key@;
                        assert(bm[j] == pair);
                    } else {
                        if bm.contains(pair) {
                            let j = choose|j: int| 0 <= j < bm.len() && bm[j] == pair;
                            lemma_utf8_injective(old_b[j].queue_name@, queue@);
                            lemma_utf8_injective(old_b[j].routing_key@, routing_key@);
                            assert(false);
                        }
                        assert(bindings_model(x.bindings@) =~= bm.push(pair));
                    }
                }
                self.exchanges.set_and_swap(i, &mut x);
                proof {
                    let m1 = self.model();
                    let xm = m0.exchanges[i as int];
                    assert(m1.exchanges =~= m0.exchanges.update(i as int, ExchangeModel { bindings: bind_pair(xm.bindings, queue.spec_bytes(), routing_key.spec_bytes()), ..xm }));
                    assert(m1.queues =~= m0.queues);
                    assert forall|a: int, c: int|
                        0 <= a < self.exchanges@.len() && 0 <= c < self.exchanges@[a].bindings@.len()
                        implies (#[trigger] self.exchanges@[a].bindings@[c]).headers_match is None by {
                        if a == i {
                            if c < old_b.len() {
                                assert(self.exchanges@[a].bindings@[c] == old_b[c]);
                            }
                        }
                    }
                }
            },
        }
    }

    /// Restores a durable queue (unless it exists) and binds it to the
    /// default exchange under its own name.
    fn declare_queue(&mut self, name: String)
        requires
            old(self).wf(),
        ensures
            final(self).wf(),
            ({
                let m = old(self).model();
                let n = encode_utf8(name@);
                let m1 = if queue_index(m.queues, n) >= 0 {
                    m
                } else {
                    ReplayModel {
                        queues: m.queues.push(QueueModel { name: n, messages: Seq::empty() }),
                        exchanges: m.exchanges,
                    }
                };
                final(self).model() == bind_in(m1, Seq::empty(), n, n)
            }),
    {
        if find_queue(&self.queues, name.as_str()).is_none() {
            let ghost m0 = self.model();
            self.queues.push(RecoveredQueue { name: name.clone(), messages: Vec::new() });
            proof {
                assert(messages_model(self.queues@.last().messages@) =~= Seq::<MessageModel>::empty());
                assert(self.model().queues =~= m0.queues.push(QueueModel { name: encode_utf8(name@), messages: Seq::empty() }));
            }
        }
        proof {
            reveal_strlit("");
            assert(""@ =~= Seq::<char>::empty());
            assert(encode_utf8(Seq::<char>::empty()) =~= Seq::<u8>::empty());
        }
        self.bind("", name.as_str(), name.as_str());
    }

    /// Restores a message into its queue, if the queue exists.
    fn enqueue(&mut self, rec: EnqueueRecord)
        requires
            old(self).wf(),
        ensures
            final(self).wf(),
            ({
                let m = old(self).model();
                let i = queue_index(m.queues, encode_utf8(rec.queue@));
                let msg = MessageModel {
                    id: rec.msg_id,
                    exchange: encode_utf8(rec.exchange@),
                    routing_key: encode_utf8(rec.routing_key@),
                    headers: rec.headers@,
                    body: rec.body@,
                    redelivered: true,
                };
                final(self).model() == if i < 0 {
                    m
                } else {
                    ReplayModel {
                        queues: m.queues.update(
                            i,
                            QueueModel { name: m.queues[i].name, messages: m.queues[i].messages.push(msg) },
                        ),
                        exchanges: m.exchanges,
                    }
                }
            }),
    {
        match find_queue(&self.queues, rec.queue.as_str()) {
            None => {},
            Some(i) => {
                let ghost m0 = self.model();
                let mut q = RecoveredQueue { name: String::new(), messages: Vec::new() };
                self.queues.set_and_swap(i, &mut q);
                let ghost old_msgs = q.messages@;
                let mut msg = Message::new_routed(rec.msg_id, rec.headers, rec.body, rec.exchange, rec.routing_key);
                msg.redelivered = true;
                q.messages.push(msg);
                self.queues.set_and_swap(i, &mut q);
                proof {
                    let qm = m0.queues[i as int];
                    let mm = MessageModel {
                        id: rec.msg_id,
                        exchange: encode_utf8(rec.exchange@),
                        routing_key: encode_utf8(rec.routing_key@),
                        headers: rec.headers@,
                        body: rec.body@,
                        redelivered: true,
                    };
                    assert(messages_model(self.queues@[i as int].messages@) =~= qm.messages.push(mm));
                    assert(self.model().queues =~= m0.queues.update(i as int, QueueModel { name: qm.name, messages: qm.messages.push(mm) }));
                    assert(self.model().exchanges =~= m0.exchanges);
                }
            },
        }
    }

    /// Restores a durable exchange unless one of that name exists.
    fn declare_exchange(&mut self, name: String, kind: ExchangeType)
        requires
            old(self).wf(),
        ensures
            final(self).wf(),
            ({
                let m = old(self).model();
                let n = encode_utf8(name@);
                final(self).model() == if exchange_index(m.exchanges, n) >= 0 {
                    m
                } else {
                    ReplayModel {
                        queues: m.queues,
                        exchanges: m.exchanges.push(
                            ExchangeModel { name: n, kind, durable: true, bindings: Seq::empty() },
                        ),
                    }
                }
            }),
    {
        if find_exchange(&self.exchanges, name.as_str()).is_none() {
            let ghost m0 = self.model();
            let x = Exchange::new(name, kind, true);
            self.exchanges.push(x);
            proof {
                assert(bindings_model(self.exchanges@.last().bindings@) =~= Seq::<(Seq<u8>, Seq<u8>)>::empty());
                assert(self.model().exchanges =~= m0.exchanges.push(exchange_model(x)));
                assert(self.model().queues =~= m0.queues);
            }
        }
    }
}

impl RecoveredState {
    /// Applies one log entry; `acked` holds the ids acknowledged anywhere in
    /// the log. An entry whose data does not read changes nothing.
    pub fn apply_entry(&mut self, entry: &WalEntry, acked: &[u64])
        requires
            old(self).wf(),
        ensures
            final(self).wf(),
            final(self).model() == entry_effect(old(self).model(), *entry, acked@),
    {
        let data = entry.data.as_slice();
        match entry.entry_type {
            EntryType::DeclareQueue => {
                if let Ok((name, durable)) = decode_declare_queue(data) {
                    if durable {
                        self.declare_queue(name);
                    }
                }
            },
            EntryType::Enqueue => {
                if let Ok(Some(rec)) = decode_enqueue(data, acked) {
                    self.enqueue(rec);
                }
            },
            EntryType::Ack => {},
            EntryType::DeclareExchange => {
                if let Ok(Some((name, kind))) = decode_declare_exchange(data) {
                    self.declare_exchange(name, kind);
                }
            },
            EntryType::Bind => {
                if let Ok((exchange, queue, routing_key)) = decode_bind(data) {
                    self.bind(exchange.as_str(), queue.as_str(), routing_key.as_str());
                }
            },
        }
    }
}

/// Rebuilds the broker's durable state from the entries of its log, read
/// in order: every `Ack` counts against an enqueued message wherever it
/// stands in the log.
pub fn replay(entries: &[WalEntry]) -> (r: RecoveredState)
    ensures
        r.wf(),
        r.model() == replay_model(
            initial_model(),
            entries@,
            acked_ids(entries@, entries@.len() as int),
            entries@.len() as int,
        ),
{
    let acked = collect_acked_ids(entries);
    let mut st = RecoveredState::new();
    let mut i: usize = 0;
    while i < entries.len()
        invariant
            i <= entries@.len(),
            st.wf(),
            acked@ == acked_ids(entries@, entries@.len() as int),
            st.model() == replay_model(initial_model(), entries@, acked@, i as int),
        decreases entries@.len() - i,
    {
        st.apply_entry(&entries[i], acked.as_slice());
        i = i + 1;
    }
    st
}

// ─── What recovery keeps ──────────────────────────────────────────────

/// `b` holds every queue of `a`, at the same place and under the same
/// name, with the messages of `a` as a prefix of its own.
pub open spec fn queues_extend(a: Seq<QueueModel>, b: Seq<QueueModel>) -> bool {
    &&& a.len() <= b.len()
    &&& forall|i: int|
        0 <= i < a.len() ==> (#[trigger] b[i]).name == a[i].name && a[i].messages.len()
            <= b[i].messages.len() && b[i].messages.subrange(0, a[i].messages.len() as int)
            == a[i].messages
}

proof fn lemma_extend_trans(a: Seq<QueueModel>, b: Seq<QueueModel>, c: Seq<QueueModel>)
    requires
        queues_extend(a, b),
        queues_extend(b, c),
    ensures
        queues_extend(a, c),
{
    assert forall|i: int| 0 <= i < a.len() implies (#[trigger] c[i]).name == a[i].name
        && a[i].messages.len() <= c[i].messages.len() && c[i].messages.subrange(
        0,
        a[i].messages.len() as int,
    ) == a[i].messages by {
        assert(b[i].name == a[i].name);
        assert(c[i].messages.subrange(0, a[i].messages.len() as int) =~= c[i].messages.subrange(
            0,
            b[i].messages.len() as int,
        ).subrange(0, a[i].messages.len() as int));
    }
}

proof fn lemma_index_same_names(a: Seq<QueueModel>, b: Seq<QueueModel>, q: Seq<u8>)
    requires
        a.len() == b.len(),
        forall|i: int| 0 <= i < a.len() ==> (#[trigger] b[i]).name == a[i].name,
    ensures
        queue_index(a, q) == queue_index(b, q),
    decreases a.len(),
{
    if a.len() > 0 {
        assert(b.last().name == a.last().name);
        assert forall|i: int| 0 <= i < a.drop_last().len() implies (#[trigger] b.drop_last()[i]).name
            == a.drop_last()[i].name by {
            assert(b[i].name == a[i].name);
        }
        lemma_index_same_names(a.drop_last(), b.drop_last(), q);
    }
}

/// A queue found in `a` is found at the same place in any `b` that
/// extends `a`.
proof fn lemma_index_extends(a: Seq<QueueModel>, b: Seq<QueueModel>, q: Seq<u8>)
    requires
        queues_extend(a, b),
        queue_index(a, q) >= 0,
    ensures
        queue_index(b, q) == queue_index(a, q),
    decreases b.len(),
{
    if b.len() > a.len() {
        assert forall|i: int| 0 <= i < a.len() implies (#[trigger] b.drop_last()[i]).name == a[i].name
            && a[i].messages.len() <= b.drop_last()[i].messages.len() && b.drop_last()[i].messages.subrange(
            0,
            a[i].messages.len() as int,
        ) == a[i].messages by {
            assert(b.drop_last()[i] == b[i]);
        }
        lemma_index_extends(a, b.drop_last(), q);
    } else {
        lemma_index_same_names(a, b, q);
    }
}

proof fn lemma_extend_refl(a: Seq<QueueModel>)
    ensures
        queues_extend(a, a),
{
    assert forall|i: int| 0 <= i < a.len() implies (#[trigger] a[i]).name == a[i].name
        && a[i].messages.len() <= a[i].messages.len() && a[i].messages.subrange(
        0,
        a[i].messages.len() as int,
    ) == a[i].messages by {
        assert(a[i].messages.subrange(0, a[i].messages.len() as int) =~= a[i].messages);
    }
}

/// Adding a message to queue `i` keeps every queue and message.
proof fn lemma_push_extends(qs: Seq<QueueModel>, i: int, msg: MessageModel)
    requires
        0 <= i < qs.len(),
    ensures
        queues_extend(qs, qs.update(i, QueueModel { name: qs[i].name, messages: qs[i].messages.push(msg) })),
{
    let q2 = qs.update(i, QueueModel { name: qs[i].name, messages: qs[i].messages.push(msg) });
    assert forall|j: int| 0 <= j < qs.len() implies (#[trigger] q2[j]).name == qs[j].name
        && qs[j].messages.len() <= q2[j].messages.len() && q2[j].messages.subrange(
        0,
        qs[j].messages.len() as int,
    ) == qs[j].messages by {
        assert(q2[j].messages.subrange(0, qs[j].messages.len() as int) =~= qs[j].messages);
    }
}

/// Adding a queue keeps every queue and message.
proof fn lemma_new_queue_extends(qs: Seq<QueueModel>, q: QueueModel)
    ensures
        queues_extend(qs, qs.push(q)),
{
    let q2 = qs.push(q);
    assert forall|j: int| 0 <= j < qs.len() implies (#[trigger] q2[j]).name == qs[j].name
        && qs[j].messages.len() <= q2[j].messages.len() && q2[j].messages.subrange(
        0,
        qs[j].messages.len() as int,
    ) == qs[j].messages by {
        assert(q2[j].messages.subrange(0, qs[j].messages.len() as int) =~= qs[j].messages);
    }
}

/// Applying an entry never loses a queue or a message.
proof fn lemma_effect_extends(m: ReplayModel, e: WalEntry, acked: Seq<u64>)
    ensures
        queues_extend(m.queues, entry_effect(m, e, acked).queues),
{
    lemma_extend_refl(m.queues);
    let d = e.data@;
    match e.entry_type {
        EntryType::DeclareQueue => {
            if let Ok((name, true)) = declare_queue_record(d) {
                if queue_index(m.queues, name) < 0 {
                    lemma_new_queue_extends(m.queues, QueueModel { name, messages: Seq::empty() });
                }
            }
        },
        EntryType::Enqueue => {
            if let Ok((q, id, p)) = enqueue_head(d) {
                if !acked.contains(id) {
                    if let Ok((ex, rk, h, b)) = enqueue_tail(d, p) {
                        let i = queue_index(m.queues, q);
                        if i >= 0 {
                            lemma_index_bound(m.queues, q);
                            lemma_push_extends(m.queues, i, MessageModel {
                                id,
                                exchange: ex,
                                routing_key: rk,
                                headers: h,
                                body: b,
                                redelivered: true,
                            });
                        }
                    }
                }
            }
        },
        _ => {},
    }
}

/// A queue position found is a position of the sequence.
proof fn lemma_index_bound(qs: Seq<QueueModel>, q: Seq<u8>)
    ensures
        queue_index(qs, q) < qs.len(),
        queue_index(qs, q) >= 0 ==> qs[queue_index(qs, q)].name == q,
    decreases qs.len(),
{
    if qs.len() > 0 {
        lemma_index_bound(qs.drop_last(), q);
    }
}

/// Replaying more entries never loses a queue or a message.
proof fn lemma_replay_extends(m: ReplayModel, es: Seq<WalEntry>, acked: Seq<u64>, n1: int, n2: int)
    requires
        0 <= n1 <= n2,
    ensures
        queues_extend(replay_model(m, es, acked, n1).queues, replay_model(m, es, acked, n2).queues),
    decreases n2 - n1,
{
    if n1 == n2 {
        lemma_extend_refl(replay_model(m, es, acked, n1).queues);
    } else {
        lemma_replay_extends(m, es, acked, n1, n2 - 1);
        lemma_effect_extends(replay_model(m, es, acked, n2 - 1), es[n2 - 1], acked);
        lemma_extend_trans(
            replay_model(m, es, acked, n1).queues,
            replay_model(m, es, acked, n2 - 1).queues,
            replay_model(m, es, acked, n2).queues,
        );
    }
}

/// The effect of an `Enqueue` entry on a queue that exists.
proof fn lemma_enqueue_step(m: ReplayModel, e: WalEntry, acked: Seq<u64>, queue: Seq<u8>, msg: MessageModel)
    requires
        e.entry_type == EntryType::Enqueue,
        enqueue_head(e.data@) matches Ok((q, id, p)) && q == queue && id == msg.id
            && enqueue_tail(e.data@, p) == Ok::<(Seq<u8>, Seq<u8>, Seq<u8>, Seq<u8>), ReplayError>(
            (msg.exchange, msg.routing_key, msg.headers, msg.body),
        ),
        msg.redelivered,
        !acked.contains(msg.id),
        queue_index(m.queues, queue) >= 0,
    ensures
        ({
            let i = queue_index(m.queues, queue);
            entry_effect(m, e, acked).queues[i].messages == m.queues[i].messages.push(msg)
        }),
{
    lemma_index_bound(m.queues, queue);
    let mm = MessageModel {
        id: msg.id,
        exchange: msg.exchange,
        routing_key: msg.routing_key,
        headers: msg.headers,
        body: msg.body,
        redelivered: true,
    };
    assert(mm == msg);
}

/// Recovery restores every message that was enqueued to a durable queue
/// declared before it, as long as no `Ack` in the log names the message's
/// id: the recovered queue holds it, marked redelivered.
pub proof fn lemma_recovers_unacked_message(
    es: Seq<WalEntry>,
    a: int,
    b: int,
    queue: Seq<u8>,
    msg: MessageModel,
)
    requires
        0 <= a < b < es.len(),
        es[a].entry_type == EntryType::DeclareQueue,
        declare_queue_record(es[a].data@) == Ok::<(Seq<u8>, bool), ReplayError>((queue, true)),
        es[b].entry_type == EntryType::Enqueue,
        enqueue_head(es[b].data@) matches Ok((q, id, p)) && q == queue && id == msg.id
            && enqueue_tail(es[b].data@, p) == Ok::<(Seq<u8>, Seq<u8>, Seq<u8>, Seq<u8>), ReplayError>(
            (msg.exchange, msg.routing_key, msg.headers, msg.body),
        ),
        msg.redelivered,
        !acked_ids(es, es.len() as int).contains(msg.id),
    ensures
        ({
            let m = replay_model(initial_model(), es, acked_ids(es, es.len() as int), es.len() as int);
            let i = queue_index(m.queues, queue);
            &&& i >= 0
            &&& m.queues[i].messages.contains(msg)
        }),
{
    let acked = acked_ids(es, es.len() as int);
    let init = initial_model();
    let ma = replay_model(init, es, acked, a);
    let ma1 = replay_model(init, es, acked, a + 1);
    assert(queue_index(ma1.queues, queue) >= 0) by {
        if queue_index(ma.queues, queue) < 0 {
            let pushed = ma.queues.push(QueueModel { name: queue, messages: Seq::empty() });
            assert(pushed.drop_last() =~= ma.queues);
            assert(queue_index(pushed, queue) >= 0);
        }
    }
    let mb = replay_model(init, es, acked, b);
    lemma_replay_extends(init, es, acked, a + 1, b);
    lemma_index_extends(ma1.queues, mb.queues, queue);
    let i = queue_index(mb.queues, queue);
    lemma_index_bound(mb.queues, queue);
    let mb1 = replay_model(init, es, acked, b + 1);
    lemma_enqueue_step(mb, es[b], acked, queue, msg);
    assert(queue_index(mb1.queues, queue) == i) by {
        lemma_effect_extends(mb, es[b], acked);
        lemma_index_extends(mb.queues, mb1.queues, queue);
    }
    let mf = replay_model(init, es, acked, es.len() as int);
    lemma_replay_extends(init, es, acked, b + 1, es.len() as int);
    lemma_index_extends(mb1.queues, mf.queues, queue);
    let k = mb.queues[i].messages.len() as int;
    assert(mb1.queues[i].messages[k] == msg);
    assert(mf.queues[i].messages.subrange(0, k + 1) == mb1.queues[i].messages);
    assert(mf.queues[i].messages[k] == msg);
}

/// Every message held is marked redelivered and names an id that `acked`
/// does not hold.
pub open spec fn only_unacked(m: ReplayModel, acked: Seq<u64>) -> bool {
    forall|i: int, j: int|
        0 <= i < m.queues.len() && 0 <= j < m.queues[i].messages.len() ==> !acked.contains(
            (#[trigger] m.queues[i].messages[j]).id,
        ) && m.queues[i].messages[j].redelivered
}

proof fn lemma_effect_only_unacked(m: ReplayModel, e: WalEntry, acked: Seq<u64>)
    requires
        only_unacked(m, acked),
    ensures
        only_unacked(entry_effect(m, e, acked), acked),
{
    let m2 = entry_effect(m, e, acked);
    let d = e.data@;
    if e.entry_type == EntryType::DeclareQueue {
        if let Ok((name, true)) = declare_queue_record(d) {
            if queue_index(m.queues, name) < 0 {
                assert forall|i: int, j: int|
                    0 <= i < m2.queues.len() && 0 <= j < m2.queues[i].messages.len() implies !acked.contains(
                    (#[trigger] m2.queues[i].messages[j]).id,
                ) && m2.queues[i].messages[j].redelivered by {
                    if i < m.queues.len() {
                        assert(m2.queues[i] == m.queues[i]);
                    }
                }
            }
        }
    } else if e.entry_type == EntryType::Enqueue {
        if let Ok((q, id, p)) = enqueue_head(d) {
            if !acked.contains(id) {
                if let Ok((ex, rk, h, b)) = enqueue_tail(d, p) {
                    let k = queue_index(m.queues, q);
                    if k >= 0 {
                        lemma_index_bound(m.queues, q);
                        assert forall|i: int, j: int|
                            0 <= i < m2.queues.len() && 0 <= j < m2.queues[i].messages.len() implies !acked.contains(
                            (#[trigger] m2.queues[i].messages[j]).id,
                        ) && m2.queues[i].messages[j].redelivered by {
                            if i != k {
                                assert(m2.queues[i] == m.queues[i]);
                            } else if j < m.queues[i].messages.len() {
                                assert(m2.queues[i].messages[j] == m.queues[i].messages[j]);
                            }
                        }
                    }
                }
            }
        }
    }
}

/// Recovery never restores a message whose id an `Ack` in the log names,
/// and every message it restores is marked redelivered.
pub proof fn lemma_acked_not_recovered(es: Seq<WalEntry>, n: int)
    requires
        0 <= n <= es.len(),
    ensures
        only_unacked(
            replay_model(initial_model(), es, acked_ids(es, es.len() as int), n),
            acked_ids(es, es.len() as int),
        ),
    decreases n,
{
    if n > 0 {
        lemma_acked_not_recovered(es, n - 1);
        lemma_effect_only_unacked(
            replay_model(initial_model(), es, acked_ids(es, es.len() as int), n - 1),
            es[n - 1],
            acked_ids(es, es.len() as int),
        );
    }
}

// ─── Logged records read back ─────────────────────────────────────────

#[verifier::spinoff_prover]
proof fn lemma_read_str16_at(pre: Seq<u8>, x: Seq<u8>, post: Seq<u8>)
    requires
        x.len() < 65536,
        valid_utf8(x),
    ensures
        read_str16(pre + str_u16_bytes(x) + post, pre.len() as int) == Ok::<(Seq<u8>, int), ReplayError>(
            (x, (pre.len() + 2 + x.len()) as int),
        ),
{
    reveal(read_str16);
    let s = pre + str_u16_bytes(x) + post;
    let k = pre.len() as int;
    lemma_be16_roundtrip(x.len() as u16);
    assert(s.subrange(k, k + 2) =~= be16(x.len() as u16));
    assert(s.subrange(k + 2, k + 2 + x.len()) =~= x);
}

#[verifier::spinoff_prover]
#[verifier::rlimit(40)]
proof fn lemma_read_bytes32_at(pre: Seq<u8>, x: Seq<u8>, post: Seq<u8>)
    requires
        x.len() < 0x1_0000_0000,
    ensures
        read_bytes32(pre + bytes_u32_bytes(x) + post, pre.len() as int) == Ok::<(Seq<u8>, int), ReplayError>(
            (x, (pre.len() + 4 + x.len()) as int),
        ),
{
    reveal(read_bytes32);
    let s = pre + bytes_u32_bytes(x) + post;
    let k = pre.len() as int;
    lemma_be32_roundtrip(x.len() as u32);
    assert(s.subrange(k, k + 4) =~= be32(x.len() as u32));
    assert(s.subrange(k + 4, k + 4 + x.len()) =~= x);
}

/// A `DeclareQueue` payload reads back as the name and durability written.
pub proof fn lemma_declare_queue_roundtrip(name: Seq<u8>, durable: bool)
    requires
        name.len() < 65536,
        valid_utf8(name),
    ensures
        declare_queue_record(str_u16_bytes(name).push(if durable { 1u8 } else { 0u8 })) == Ok::<
            (Seq<u8>, bool),
            ReplayError,
        >((name, durable)),
{
    let b = if durable { 1u8 } else { 0u8 };
    let d = str_u16_bytes(name).push(b);
    let n = name.len() as int;
    assert(read_str16(d, 0) == Ok::<(Seq<u8>, int), ReplayError>((name, 2 + n))) by {
        assert(d =~= Seq::<u8>::empty() + str_u16_bytes(name) + seq![b]);
        lemma_read_str16_at(Seq::empty(), name, seq![b]);
    }
    assert(d[2 + n] == b);
}

/// An `Enqueue` payload reads back as the message written.
pub proof fn lemma_enqueue_roundtrip(
    queue: Seq<u8>,
    id: u64,
    exchange: Seq<u8>,
    routing_key: Seq<u8>,
    headers: Seq<u8>,
    body: Seq<u8>,
)
    requires
        queue.len() < 65536,
        exchange.len() < 65536,
        routing_key.len() < 65536,
        valid_utf8(queue),
        valid_utf8(exchange),
        valid_utf8(routing_key),
        headers.len() < 0x1_0000_0000,
        body.len() < 0x1_0000_0000,
    ensures
        ({
            let d = str_u16_bytes(queue) + be64(id) + str_u16_bytes(exchange) + str_u16_bytes(
                routing_key,
            ) + bytes_u32_bytes(headers) + bytes_u32_bytes(body);
            &&& enqueue_head(d) matches Ok((q, i, p)) && q == queue && i == id
                && enqueue_tail(d, p) == Ok::<(Seq<u8>, Seq<u8>, Seq<u8>, Seq<u8>), ReplayError>(
                (exchange, routing_key, headers, body),
            )
        }),
{
    let q = str_u16_bytes(queue);
    let m = be64(id);
    let e = str_u16_bytes(exchange);
    let k = str_u16_bytes(routing_key);
    let h = bytes_u32_bytes(headers);
    let b = bytes_u32_bytes(body);
    let d = q + m + e + k + h + b;
    let p0 = q.len() as int;
    let p1 = p0 + 8;
    let p2 = p1 + e.len();
    let p3 = p2 + k.len();
    let p4 = p3 + h.len();
    assert(read_str16(d, 0) == Ok::<(Seq<u8>, int), ReplayError>((queue, p0))) by {
        assert(d =~= Seq::<u8>::empty() + q + (m + e + k + h + b));
        lemma_read_str16_at(Seq::empty(), queue, m + e + k + h + b);
    }
    assert(from_be64(d.subrange(p0, p0 + 8)) == id) by {
        lemma_be64_roundtrip(id);
        assert(d.subrange(p0, p0 + 8) =~= m);
    }
    assert(read_str16(d, p1) == Ok::<(Seq<u8>, int), ReplayError>((exchange, p2))) by {
        assert(d =~= (q + m) + e + (k + h + b));
        lemma_read_str16_at(q + m, exchange, k + h + b);
    }
    assert(read_str16(d, p2) == Ok::<(Seq<u8>, int), ReplayError>((routing_key, p3))) by {
        assert(d =~= (q + m + e) + k + (h + b));
        lemma_read_str16_at(q + m + e, routing_key, h + b);
    }
    assert(read_bytes32(d, p3) == Ok::<(Seq<u8>, int), ReplayError>((headers, p4))) by {
        assert(d =~= (q + m + e + k) + h + b);
        lemma_read_bytes32_at(q + m + e + k, headers, b);
    }
    assert(read_bytes32(d, p4) matches Ok((x, _)) && x == body) by {
        assert(d =~= (q + m + e + k + h) + b + Seq::<u8>::empty());
        lemma_read_bytes32_at(q + m + e + k + h, body, Seq::empty());
    }
}

/// A `Bind` payload reads back as the exchange, queue and key written.
pub proof fn lemma_bind_roundtrip(exchange: Seq<u8>, queue: Seq<u8>, routing_key: Seq<u8>)
    requires
        exchange.len() < 65536,
        queue.len() < 65536,
        routing_key.len() < 65536,
        valid_utf8(exchange),
        valid_utf8(queue),
        valid_utf8(routing_key),
    ensures
        bind_record(str_u16_bytes(exchange) + str_u16_bytes(queue) + str_u16_bytes(routing_key))
            == Ok::<(Seq<u8>, Seq<u8>, Seq<u8>), ReplayError>((exchange, queue, routing_key)),
{
    let e = str_u16_bytes(exchange);
    let q = str_u16_bytes(queue);
    let k = str_u16_bytes(routing_key);
    let d = e + q + k;
    assert(d =~= Seq::<u8>::empty() + e + (q + k));
    lemma_read_str16_at(Seq::empty(), exchange, q + k);
    assert(d =~= e + q + k);
    lemma_read_str16_at(e, queue, k);
    assert(d =~= (e + q) + k + Seq::<u8>::empty());
    lemma_read_str16_at(e + q, routing_key, Seq::empty());
}

} // verus!
