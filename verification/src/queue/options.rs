//! Queue types selected by the `x-queue-type` declaration argument, and
//! the options a queue is declared with.

use vstd::prelude::*;
use vstd::utf8::*;
use vstd::string::*;
use crate::routing::topic::str_eq;
use crate::amqp::types::copy_range;
use crate::storage::stream::{parse_u64_spec, parse_u64_bytes};
use crate::text::slices::{line_end, byte_index_within, find_line_end, find_byte_within, text_between, lemma_line_end_bounds};

verus! {

/// How a queue stores its messages.
#[derive(Clone, Copy, Debug, PartialEq, Eq, Structural)]
pub enum QueueType {
    /// Messages reside on the declaring node only.
    Classic,
    /// Writes are replicated to a majority.
    Quorum,
    /// An append-only log; acknowledging does not remove messages.
    Stream,
}

impl Default for QueueType {
    fn default() -> (r: Self)
        ensures
            r == QueueType::Classic,
    {
        QueueType::Classic
    }
}

/// The queue type an `x-queue-type` value names: `quorum` and `stream`,
/// anything else (or no value) classic.
pub open spec fn queue_type_of(value: Option<Seq<char>>) -> QueueType {
    match value {
        Some(v) => if v == "quorum"@ {
            QueueType::Quorum
        } else if v == "stream"@ {
            QueueType::Stream
        } else {
            QueueType::Classic
        },
        None => QueueType::Classic,
    }
}

/// The wire name of a queue type.
pub open spec fn queue_type_name(t: QueueType) -> Seq<char> {
    match t {
        QueueType::Classic => "classic"@,
        QueueType::Quorum => "quorum"@,
        QueueType::Stream => "stream"@,
    }
}

impl QueueType {
    /// Reads the `x-queue-type` argument.
    pub fn from_amqp_arg(value: Option<&str>) -> (r: Self)
        ensures
            r == queue_type_of(
                match value {
                    Some(v) => Some(v@),
                    None => None,
                },
            ),
    {
        match value {
            Some(v) => if str_eq(v, "quorum") {
                QueueType::Quorum
            } else if str_eq(v, "stream") {
                QueueType::Stream
            } else {
                QueueType::Classic
            },
            None => QueueType::Classic,
        }
    }

    /// The wire name of this queue type.
    pub fn as_str(&self) -> (r: &'static str)
        ensures
            r@ == queue_type_name(*self),
    {
        match self {
            QueueType::Classic => "classic",
            QueueType::Quorum => "quorum",
            QueueType::Stream => "stream",
        }
    }
}

/// A queue type's wire name reads back as the same type.
pub proof fn lemma_queue_type_name_roundtrip(t: QueueType)
    ensures
        queue_type_of(Some(queue_type_name(t))) == t,
{
    reveal_strlit("classic");
    reveal_strlit("quorum");
    reveal_strlit("stream");
    assert("classic"@[0] == 'c');
    assert("quorum"@[0] == 'q');
    assert("stream"@[0] == 's');
}

// ─── Options ──────────────────────────────────────────────────────────

/// What a queue is declared with. Durations are in milliseconds.
#[derive(Clone, Debug)]
pub struct QueueOptions {
    pub durable: bool,
    pub exclusive: bool,
    pub auto_delete: bool,
    /// The highest priority a message keeps; 0 for a queue without
    /// priorities.
    pub max_priority: u8,
    pub message_ttl: Option<u64>,
    pub max_length: Option<usize>,
    pub dead_letter_exchange: Option<String>,
    pub dead_letter_routing_key: Option<String>,
    pub expires: Option<u64>,
    pub max_retries: Option<u32>,
    pub retry_delay_ms: Option<u64>,
    /// The text of the retry backoff factor, read as a floating-point
    /// number by the code that schedules retries.
    pub retry_multiplier: Option<String>,
    pub rate_limit: Option<u32>,
    pub stream_mode: bool,
    pub schema: Option<Vec<u8>>,
    pub schema_type: Option<String>,
    pub schema_message: Option<String>,
    /// Replication strategy chosen at declare time.
    pub queue_type: QueueType,
    /// Number of replicas for quorum queues, the leader included.
    pub quorum_group_size: u32,
}

/// The mathematical model of [`QueueOptions`].
#[verifier::ext_equal]
pub struct QueueOptionsView {
    pub durable: bool,
    pub exclusive: bool,
    pub auto_delete: bool,
    pub max_priority: u8,
    pub message_ttl: Option<u64>,
    pub max_length: Option<usize>,
    pub dead_letter_exchange: Option<Seq<char>>,
    pub dead_letter_routing_key: Option<Seq<char>>,
    pub expires: Option<u64>,
    pub max_retries: Option<u32>,
    pub retry_delay_ms: Option<u64>,
    pub retry_multiplier: Option<Seq<char>>,
    pub rate_limit: Option<u32>,
    pub stream_mode: bool,
    pub schema: Option<Seq<u8>>,
    pub schema_type: Option<Seq<char>>,
    pub schema_message: Option<Seq<char>>,
    pub queue_type: QueueType,
    pub quorum_group_size: u32,
}

/// An optional string seen as its characters.
pub open spec fn opt_chars(o: Option<String>) -> Option<Seq<char>> {
    match o {
        Some(s) => Some(s@),
        None => None,
    }
}

/// An optional byte string seen as its bytes.
pub open spec fn opt_bytes(o: Option<Vec<u8>>) -> Option<Seq<u8>> {
    match o {
        Some(b) => Some(b@),
        None => None,
    }
}

impl View for QueueOptions {
    type V = QueueOptionsView;

    open spec fn view(&self) -> QueueOptionsView {
        QueueOptionsView {
            durable: self.durable,
            exclusive: self.exclusive,
            auto_delete: self.auto_delete,
            max_priority: self.max_priority,
            message_ttl: self.message_ttl,
            max_length: self.max_length,
            dead_letter_exchange: opt_chars(self.dead_letter_exchange),
            dead_letter_routing_key: opt_chars(self.dead_letter_routing_key),
            expires: self.expires,
            max_retries: self.max_retries,
            retry_delay_ms: self.retry_delay_ms,
            retry_multiplier: opt_chars(self.retry_multiplier),
            rate_limit: self.rate_limit,
            stream_mode: self.stream_mode,
            schema: opt_bytes(self.schema),
            schema_type: opt_chars(self.schema_type),
            schema_message: opt_chars(self.schema_message),
            queue_type: self.queue_type,
            quorum_group_size: self.quorum_group_size,
        }
    }
}

/// The options of a queue declared with nothing set: every flag off,
/// every limit absent, a classic queue with a group size of 0.
pub open spec fn default_options() -> QueueOptionsView {
    QueueOptionsView {
        durable: false,
        exclusive: false,
        auto_delete: false,
        max_priority: 0,
        message_ttl: None,
        max_length: None,
        dead_letter_exchange: None,
        dead_letter_routing_key: None,
        expires: None,
        max_retries: None,
        retry_delay_ms: None,
        retry_multiplier: None,
        rate_limit: None,
        stream_mode: false,
        schema: None,
        schema_type: None,
        schema_message: None,
        queue_type: QueueType::Classic,
        quorum_group_size: 0,
    }
}

impl Default for QueueOptions {
    fn default() -> (r: Self)
        ensures
            r@ == default_options(),
    {
        QueueOptions {
            durable: false,
            exclusive: false,
            auto_delete: false,
            max_priority: 0,
            message_ttl: None,
            max_length: None,
            dead_letter_exchange: None,
            dead_letter_routing_key: None,
            expires: None,
            max_retries: None,
            retry_delay_ms: None,
            retry_multiplier: None,
            rate_limit: None,
            stream_mode: false,
            schema: None,
            schema_type: None,
            schema_message: None,
            queue_type: QueueType::Classic,
            quorum_group_size: 0,
        }
    }
}

// ─── Header form ──────────────────────────────────────────────────────

/// A decimal numeral (optionally after `+`) of at most `max`, as the
/// unsigned integer types read one; `None` otherwise.
pub open spec fn parse_at_most(b: Seq<u8>, max: int) -> Option<int> {
    match parse_u64_spec(b) {
        Some(n) => if n <= max { Some(n as int) } else { None },
        None => None,
    }
}

/// The effect of one `key:value` header line on the queue name and
/// options read so far; an unknown key changes nothing.
pub open spec fn apply_header(
    st: (Seq<char>, QueueOptionsView),
    k: Seq<char>,
    v: Seq<char>,
) -> (Seq<char>, QueueOptionsView) {
    let name = st.0;
    let o = st.1;
    let vb = encode_utf8(v);
    if k == "name"@ {
        (v, o)
    } else if k == "durable"@ {
        (name, QueueOptionsView { durable: v == "true"@, ..o })
    } else if k == "exclusive"@ {
        (name, QueueOptionsView { exclusive: v == "true"@, ..o })
    } else if k == "auto_delete"@ {
        (name, QueueOptionsView { auto_delete: v == "true"@, ..o })
    } else if k == "max_priority"@ {
        let p: u8 = match parse_at_most(vb, 255) { Some(n) => n as u8, None => 0 };
        (name, QueueOptionsView { max_priority: p, ..o })
    } else if k == "message_ttl"@ {
        (name, QueueOptionsView { message_ttl: parse_u64_spec(vb), ..o })
    } else if k == "max_length"@ {
        let m: Option<usize> = match parse_at_most(vb, usize::MAX as int) {
            Some(n) => Some(n as usize),
            None => None,
        };
        (name, QueueOptionsView { max_length: m, ..o })
    } else if k == "x-dead-letter-exchange"@ {
        (name, QueueOptionsView { dead_letter_exchange: Some(v), ..o })
    } else if k == "x-dead-letter-routing-key"@ {
        (name, QueueOptionsView { dead_letter_routing_key: Some(v), ..o })
    } else if k == "x-expires"@ {
        (name, QueueOptionsView { expires: parse_u64_spec(vb), ..o })
    } else if k == "x-max-retries"@ {
        let m: Option<u32> = match parse_at_most(vb, u32::MAX as int) {
            Some(n) => Some(n as u32),
            None => None,
        };
        (name, QueueOptionsView { max_retries: m, ..o })
    } else if k == "x-retry-delay"@ {
        (name, QueueOptionsView { retry_delay_ms: parse_u64_spec(vb), ..o })
    } else if k == "x-retry-multiplier"@ {
        (name, QueueOptionsView { retry_multiplier: Some(v), ..o })
    } else if k == "x-rate-limit"@ {
        let m: Option<u32> = match parse_at_most(vb, u32::MAX as int) {
            Some(n) => Some(n as u32),
            None => None,
        };
        (name, QueueOptionsView { rate_limit: m, ..o })
    } else if k == "x-queue-type"@ {
        (
            name,
            QueueOptionsView {
                queue_type: queue_type_of(Some(v)),
                stream_mode: o.stream_mode || v == "stream"@,
                ..o
            },
        )
    } else if k == "x-quorum-initial-group-size"@ {
        let g: u32 = match parse_at_most(vb, u32::MAX as int) { Some(n) => n as u32, None => 3 };
        (name, QueueOptionsView { quorum_group_size: g, ..o })
    } else if k == "x-schema"@ {
        (name, QueueOptionsView { schema: Some(vb), ..o })
    } else if k == "x-schema-type"@ {
        (name, QueueOptionsView { schema_type: Some(v), ..o })
    } else if k == "x-schema-message"@ {
        (name, QueueOptionsView { schema_message: Some(v), ..o })
    } else {
        (name, o)
    }
}

/// The name and options after reading the lines of `h` from byte `start`
/// on: lines end at `\r\n`, empty lines and lines without `:` are
/// skipped, and a line's key ends at its first `:`.
pub open spec fn header_lines(h: Seq<u8>, start: int, st: (Seq<char>, QueueOptionsView)) -> (
    Seq<char>,
    QueueOptionsView,
)
    decreases h.len() - start,
{
    if start < 0 || start > h.len() {
        st
    } else {
        let e = line_end(h, start);
        let c = byte_index_within(h, 58, start, e);
        let st2 = if e > start && c < e {
            apply_header(st, decode_utf8(h.subrange(start, c)), decode_utf8(h.subrange(c + 1, e)))
        } else {
            st
        };
        if e >= h.len() {
            st2
        } else {
            proof {
                lemma_line_end_bounds(h, start);
            }
            header_lines(h, e + 2, st2)
        }
    }
}

/// Reads an unsigned numeral of at most `max`.
fn parse_at_most_exec(b: &[u8], max: u64) -> (r: Option<u64>)
    ensures
        match parse_at_most(b@, max as int) {
            Some(n) => r == Some(n as u64),
            None => r is None,
        },
{
    match parse_u64_bytes(b) {
        Some(n) => if n <= max { Some(n) } else { None },
        None => None,
    }
}

/// Applies one header line to the name and options read so far.
fn apply_header_exec(name: &mut String, opts: &mut QueueOptions, k: &str, v: String)
    ensures
        (final(name)@, final(opts)@) == apply_header((old(name)@, old(opts)@), k@, v@),
{
    if str_eq(k, "name") {
        *name = v;
    } else if str_eq(k, "durable") {
        opts.durable = str_eq(v.as_str(), "true");
    } else if str_eq(k, "exclusive") {
        opts.exclusive = str_eq(v.as_str(), "true");
    } else if str_eq(k, "auto_delete") {
        opts.auto_delete = str_eq(v.as_str(), "true");
    } else if str_eq(k, "max_priority") {
        opts.max_priority = match parse_at_most_exec(v.as_str().as_bytes(), 255) {
            Some(n) => n as u8,
            None => 0,
        };
    } else if str_eq(k, "message_ttl") {
        opts.message_ttl = parse_u64_bytes(v.as_str().as_bytes());
    } else if str_eq(k, "max_length") {
        opts.max_length = match parse_at_most_exec(v.as_str().as_bytes(), usize::MAX as u64) {
            Some(n) => Some(n as usize),
            None => None,
        };
    } else if str_eq(k, "x-dead-letter-exchange") {
        opts.dead_letter_exchange = Some(v);
    } else if str_eq(k, "x-dead-letter-routing-key") {
        opts.dead_letter_routing_key = Some(v);
    } else if str_eq(k, "x-expires") {
        opts.expires = parse_u64_bytes(v.as_str().as_bytes());
    } else if str_eq(k, "x-max-retries") {
        opts.max_retries = match parse_at_most_exec(v.as_str().as_bytes(), u32::MAX as u64) {
            Some(n) => Some(n as u32),
            None => None,
        };
    } else if str_eq(k, "x-retry-delay") {
        opts.retry_delay_ms = parse_u64_bytes(v.as_str().as_bytes());
    } else if str_eq(k, "x-retry-multiplier") {
        opts.retry_multiplier = Some(v);
    } else if str_eq(k, "x-rate-limit") {
        opts.rate_limit = match parse_at_most_exec(v.as_str().as_bytes(), u32::MAX as u64) {
            Some(n) => Some(n as u32),
            None => None,
        };
    } else if str_eq(k, "x-queue-type") {
        opts.queue_type = QueueType::from_amqp_arg(Some(v.as_str()));
        if str_eq(v.as_str(), "stream") {
            opts.stream_mode = true;
        }
    } else if str_eq(k, "x-quorum-initial-group-size") {
        opts.quorum_group_size = match parse_at_most_exec(v.as_str().as_bytes(), u32::MAX as u64) {
            Some(n) => n as u32,
            None => 3,
        };
    } else if str_eq(k, "x-schema") {
        let vb = v.as_str().as_bytes();
        opts.schema = Some(copy_range(vb, 0, vb.len()));
    } else if str_eq(k, "x-schema-type") {
        opts.schema_type = Some(v);
    } else if str_eq(k, "x-schema-message") {
        opts.schema_message = Some(v);
    }
}

impl QueueOptions {
    /// Reads a queue name and options from `key:value` lines separated by
    /// `\r\n`. Unknown keys and lines without `:` are ignored; a number that
    /// does not parse leaves its option unset (`max_priority` 0,
    /// `x-quorum-initial-group-size` 3); a later line overrides an earlier.
    pub fn from_headers(headers: &str) -> (r: (String, QueueOptions))
        ensures
            (r.0@, r.1@) == header_lines(
                headers.spec_bytes(),
                0,
                (Seq::<char>::empty(), default_options()),
            ),
    {
        let h = headers.as_bytes();
        proof {
            encode_utf8_valid_utf8(headers@);
        }
        let mut name = String::new();
        let mut opts = QueueOptions::default();
        let mut start: usize = 0;
        loop
            invariant
                start <= h@.len(),
                start == 0 || h@[start - 1] == 10,
                valid_utf8(h@),
                h@ == headers.spec_bytes(),
                header_lines(h@, 0, (Seq::<char>::empty(), default_options())) == header_lines(
                    h@,
                    start as int,
                    (name@, opts@),
                ),
            decreases h@.len() - start,
        {
            let e = find_line_end(h, start);
            let c = find_byte_within(h, 58, start, e);
            if e > start && c < e {
                let key = text_between(h, start, c);
                let value = text_between(h, c + 1, e);
                apply_header_exec(&mut name, &mut opts, key.as_str(), value);
            }
            if e >= h.len() {
                return (name, opts);
            }
            start = e + 2;
        }
    }
}

/// Each schema key of the header form writes its own option and nothing
/// else: a `x-schema-message` line sets the message name and keeps the
/// schema type, a `x-schema-type` line sets the type and keeps the
/// message name, a `x-schema` line sets the schema source and keeps both,
/// and no other key changes any of the three (nor does any key but
/// `name` change the queue name).
pub proof fn lemma_schema_keys_write_own_field(st: (Seq<char>, QueueOptionsView), k: Seq<char>, v: Seq<char>)
    ensures
        k == "x-schema-message"@ ==> apply_header(st, k, v) == (st.0, QueueOptionsView { schema_message: Some(v), ..st.1 }),
        k == "x-schema-type"@ ==> apply_header(st, k, v) == (st.0, QueueOptionsView { schema_type: Some(v), ..st.1 }),
        k == "x-schema"@ ==> apply_header(st, k, v) == (st.0, QueueOptionsView { schema: Some(encode_utf8(v)), ..st.1 }),
        k != "x-schema-message"@ ==> apply_header(st, k, v).1.schema_message == st.1.schema_message,
        k != "x-schema-type"@ ==> apply_header(st, k, v).1.schema_type == st.1.schema_type,
        k != "x-schema"@ ==> apply_header(st, k, v).1.schema == st.1.schema,
        k != "name"@ ==> apply_header(st, k, v).0 == st.0,
{
    reveal_strlit("name");
    reveal_strlit("durable");
    reveal_strlit("exclusive");
    reveal_strlit("auto_delete");
    reveal_strlit("max_priority");
    reveal_strlit("message_ttl");
    reveal_strlit("max_length");
    reveal_strlit("x-dead-letter-exchange");
    reveal_strlit("x-dead-letter-routing-key");
    reveal_strlit("x-expires");
    reveal_strlit("x-max-retries");
    reveal_strlit("x-retry-delay");
    reveal_strlit("x-retry-multiplier");
    reveal_strlit("x-rate-limit");
    reveal_strlit("x-queue-type");
    reveal_strlit("x-quorum-initial-group-size");
    reveal_strlit("x-schema");
    reveal_strlit("x-schema-type");
    reveal_strlit("x-schema-message");
    assert("name"@.len() == 4);
    assert("durable"@.len() == 7);
    assert("exclusive"@.len() == 9);
    assert("auto_delete"@.len() == 11);
    assert("max_priority"@.len() == 12);
    assert("message_ttl"@.len() == 11);
    assert("max_length"@.len() == 10);
    assert("x-dead-letter-exchange"@.len() == 22);
    assert("x-dead-letter-routing-key"@.len() == 25);
    assert("x-expires"@.len() == 9);
    assert("x-max-retries"@.len() == 13);
    assert("x-retry-delay"@.len() == 13);
    assert("x-retry-multiplier"@.len() == 18);
    assert("x-rate-limit"@.len() == 12);
    assert("x-queue-type"@.len() == 12);
    assert("x-quorum-initial-group-size"@.len() == 27);
    assert("x-schema"@.len() == 8);
    assert("x-schema-type"@.len() == 13);
    assert("x-schema-message"@.len() == 16);
    if k == "x-schema-type"@ {
        assert(k[2] == 's');
        assert("x-max-retries"@[2] == 'm');
    }
}

/// Every option of the header form is written by one key only: a line
/// with any other key leaves it as it was. The flag keys set their flag
/// to whether the value is `true`, and the text-valued keys set their
/// option to the value.
pub proof fn lemma_header_keys_write_own_option(st: (Seq<char>, QueueOptionsView), k: Seq<char>, v: Seq<char>)
    ensures
        k != "durable"@ ==> apply_header(st, k, v).1.durable == st.1.durable,
        k != "exclusive"@ ==> apply_header(st, k, v).1.exclusive == st.1.exclusive,
        k != "auto_delete"@ ==> apply_header(st, k, v).1.auto_delete == st.1.auto_delete,
        k != "max_priority"@ ==> apply_header(st, k, v).1.max_priority == st.1.max_priority,
        k != "message_ttl"@ ==> apply_header(st, k, v).1.message_ttl == st.1.message_ttl,
        k != "max_length"@ ==> apply_header(st, k, v).1.max_length == st.1.max_length,
        k != "x-dead-letter-exchange"@ ==> apply_header(st, k, v).1.dead_letter_exchange == st.1.dead_letter_exchange,
        k != "x-dead-letter-routing-key"@ ==> apply_header(st, k, v).1.dead_letter_routing_key == st.1.dead_letter_routing_key,
        k != "x-expires"@ ==> apply_header(st, k, v).1.expires == st.1.expires,
        k != "x-max-retries"@ ==> apply_header(st, k, v).1.max_retries == st.1.max_retries,
        k != "x-retry-delay"@ ==> apply_header(st, k, v).1.retry_delay_ms == st.1.retry_delay_ms,
        k != "x-retry-multiplier"@ ==> apply_header(st, k, v).1.retry_multiplier == st.1.retry_multiplier,
        k != "x-rate-limit"@ ==> apply_header(st, k, v).1.rate_limit == st.1.rate_limit,
        k != "x-queue-type"@ ==> apply_header(st, k, v).1.queue_type == st.1.queue_type,
        k != "x-queue-type"@ ==> apply_header(st, k, v).1.stream_mode == st.1.stream_mode,
        k != "x-quorum-initial-group-size"@ ==> apply_header(st, k, v).1.quorum_group_size == st.1.quorum_group_size,
        k == "name"@ ==> apply_header(st, k, v) == (v, st.1),
        k == "durable"@ ==> apply_header(st, k, v).1.durable == (v == "true"@),
        k == "exclusive"@ ==> apply_header(st, k, v).1.exclusive == (v == "true"@),
        k == "auto_delete"@ ==> apply_header(st, k, v).1.auto_delete == (v == "true"@),
        k == "x-dead-letter-exchange"@ ==> apply_header(st, k, v).1.dead_letter_exchange == Some(v),
        k == "x-dead-letter-routing-key"@ ==> apply_header(st, k, v).1.dead_letter_routing_key == Some(v),
        k == "x-retry-multiplier"@ ==> apply_header(st, k, v).1.retry_multiplier == Some(v),
{
    lemma_schema_keys_write_own_field(st, k, v);
    reveal_strlit("name");
    reveal_strlit("durable");
    reveal_strlit("exclusive");
    reveal_strlit("auto_delete");
    reveal_strlit("max_priority");
    reveal_strlit("message_ttl");
    reveal_strlit("max_length");
    reveal_strlit("x-dead-letter-exchange");
    reveal_strlit("x-dead-letter-routing-key");
    reveal_strlit("x-expires");
    reveal_strlit("x-max-retries");
    reveal_strlit("x-retry-delay");
    reveal_strlit("x-retry-multiplier");
    reveal_strlit("x-rate-limit");
    reveal_strlit("x-queue-type");
    reveal_strlit("x-quorum-initial-group-size");
    reveal_strlit("x-schema");
    reveal_strlit("x-schema-type");
    reveal_strlit("x-schema-message");
    assert("name"@.len() == 4);
    assert("durable"@.len() == 7);
    assert("exclusive"@.len() == 9);
    assert("auto_delete"@.len() == 11);
    assert("max_priority"@.len() == 12);
    assert("message_ttl"@.len() == 11);
    assert("max_length"@.len() == 10);
    assert("x-dead-letter-exchange"@.len() == 22);
    assert("x-dead-letter-routing-key"@.len() == 25);
    assert("x-expires"@.len() == 9);
    assert("x-max-retries"@.len() == 13);
    assert("x-retry-delay"@.len() == 13);
    assert("x-retry-multiplier"@.len() == 18);
    assert("x-rate-limit"@.len() == 12);
    assert("x-queue-type"@.len() == 12);
    assert("x-quorum-initial-group-size"@.len() == 27);
    assert("x-schema"@.len() == 8);
    assert("x-schema-type"@.len() == 13);
    assert("x-schema-message"@.len() == 16);
}

} // verus!
