//! The text headers of the broker's native publish and nack frames:
//! `key:value` lines separated by `\r\n`.

use vstd::prelude::*;
use vstd::utf8::*;
use vstd::string::*;
use crate::amqp::types::copy_range;
use crate::queue::options::parse_at_most;
use crate::routing::topic::str_eq;
use crate::storage::stream::{parse_u64_bytes, parse_u64_spec};
use crate::text::slices::{find_keyed_lines, keyed_line_ok, keyed_lines, text_between, triple_of, triples_of};

verus! {

/// What the headers of a publish say.
pub struct PublishHeaders {
    /// The exchange to publish to; empty for the default exchange.
    pub exchange: String,
    pub routing_key: String,
    pub priority: u8,
    /// The message's own time to live, in milliseconds.
    pub expiration_ms: Option<u64>,
    /// The lines with other keys, each followed by `\r\n`, kept as the
    /// message's headers.
    pub user_headers: Vec<u8>,
    /// The `message-id`, when it is read as one (for deduplication).
    pub message_id: Option<String>,
    /// The headers a headers exchange matches on: every keyed line but
    /// `exchange`, `routing_key` and `queue`, the latest line first so
    /// that a later line overrides an earlier one of the same key.
    pub routing_headers: Vec<(String, String)>,
}

/// The model of the routing-independent part of [`PublishHeaders`].
#[verifier::ext_equal]
pub struct PublishHeadersView {
    pub exchange: Seq<char>,
    pub routing_key: Seq<char>,
    pub priority: u8,
    pub expiration_ms: Option<u64>,
    pub user_headers: Seq<u8>,
    pub message_id: Option<Seq<char>>,
}

/// An optional string seen as its characters.
pub open spec fn opt_text(o: Option<String>) -> Option<Seq<char>> {
    match o {
        Some(s) => Some(s@),
        None => None,
    }
}

impl PublishHeaders {
    /// The routing-independent part as a model.
    pub open spec fn fields(&self) -> PublishHeadersView {
        PublishHeadersView {
            exchange: self.exchange@,
            routing_key: self.routing_key@,
            priority: self.priority,
            expiration_ms: self.expiration_ms,
            user_headers: self.user_headers@,
            message_id: opt_text(self.message_id),
        }
    }
}

/// A list of string pairs seen as pairs of character sequences.
pub open spec fn pairs_view(v: Seq<(String, String)>) -> Seq<(Seq<char>, Seq<char>)> {
    v.map_values(|p: (String, String)| (p.0@, p.1@))
}

/// Headers before any line is read.
pub open spec fn no_publish_headers() -> PublishHeadersView {
    PublishHeadersView {
        exchange: Seq::empty(),
        routing_key: Seq::empty(),
        priority: 0,
        expiration_ms: None,
        user_headers: Seq::empty(),
        message_id: None,
    }
}

/// The effect of one keyed line (its bytes, key and value). `queue` names
/// the routing key only while no exchange is set; `priority` that does
/// not read as a `u8` is 0; `message-id` is taken only when asked for.
pub open spec fn publish_step(
    st: PublishHeadersView,
    line: Seq<u8>,
    k: Seq<char>,
    v: Seq<char>,
    with_message_id: bool,
) -> PublishHeadersView {
    if k == "exchange"@ {
        PublishHeadersView { exchange: v, ..st }
    } else if k == "routing_key"@ {
        PublishHeadersView { routing_key: v, ..st }
    } else if k == "queue"@ {
        if st.exchange.len() == 0 {
            PublishHeadersView { routing_key: v, ..st }
        } else {
            st
        }
    } else if k == "priority"@ {
        let p: u8 = match parse_at_most(encode_utf8(v), 255) {
            Some(n) => n as u8,
            None => 0,
        };
        PublishHeadersView { priority: p, ..st }
    } else if k == "expiration"@ {
        PublishHeadersView { expiration_ms: parse_u64_spec(encode_utf8(v)), ..st }
    } else if with_message_id && k == "message-id"@ {
        PublishHeadersView { message_id: Some(v), ..st }
    } else {
        PublishHeadersView { user_headers: st.user_headers + line + seq![13u8, 10u8], ..st }
    }
}

/// The key of a keyed line.
pub open spec fn line_key(h: Seq<u8>, l: (int, int, int)) -> Seq<char> {
    decode_utf8(h.subrange(l.0, l.1))
}

/// The value of a keyed line.
pub open spec fn line_value(h: Seq<u8>, l: (int, int, int)) -> Seq<char> {
    decode_utf8(h.subrange(l.1 + 1, l.2))
}

/// The headers after reading keyed lines `ls` of `h` in order.
pub open spec fn publish_fold(h: Seq<u8>, ls: Seq<(int, int, int)>, with_message_id: bool) -> PublishHeadersView
    decreases ls.len(),
{
    if ls.len() == 0 {
        no_publish_headers()
    } else {
        let l = ls.last();
        publish_step(
            publish_fold(h, ls.drop_last(), with_message_id),
            h.subrange(l.0, l.2),
            line_key(h, l),
            line_value(h, l),
            with_message_id,
        )
    }
}

/// Whether a key is one that routes rather than describes the message.
pub open spec fn is_routing_key_name(k: Seq<char>) -> bool {
    k == "exchange"@ || k == "routing_key"@ || k == "queue"@
}

/// The headers a headers exchange sees after keyed lines `ls`, latest
/// first.
pub open spec fn routing_fold(h: Seq<u8>, ls: Seq<(int, int, int)>) -> Seq<(Seq<char>, Seq<char>)>
    decreases ls.len(),
{
    if ls.len() == 0 {
        Seq::empty()
    } else {
        let l = ls.last();
        let prev = routing_fold(h, ls.drop_last());
        if is_routing_key_name(line_key(h, l)) {
            prev
        } else {
            seq![(line_key(h, l), line_value(h, l))] + prev
        }
    }
}

/// Applies one keyed line.
fn apply_publish_line(
    out: &mut PublishHeaders,
    h: &[u8],
    a: usize,
    c: usize,
    e: usize,
    with_message_id: bool,
)
    requires
        valid_utf8(h@),
        keyed_line_ok(h@, (a as int, c as int, e as int)),
    ensures
        final(out).fields() == publish_step(
            old(out).fields(),
            h@.subrange(a as int, e as int),
            line_key(h@, (a as int, c as int, e as int)),
            line_value(h@, (a as int, c as int, e as int)),
            with_message_id,
        ),
        ({
            let k = line_key(h@, (a as int, c as int, e as int));
            let v = line_value(h@, (a as int, c as int, e as int));
            pairs_view(final(out).routing_headers@) == if is_routing_key_name(k) {
                pairs_view(old(out).routing_headers@)
            } else {
                seq![(k, v)] + pairs_view(old(out).routing_headers@)
            }
        }),
{
    let k = text_between(h, a, c);
    let v = text_between(h, c + 1, e);
    let routing = str_eq(k.as_str(), "exchange") || str_eq(k.as_str(), "routing_key") || str_eq(
        k.as_str(),
        "queue",
    );
    if !routing {
        let ghost before = out.routing_headers@;
        out.routing_headers.insert(0, (k.clone(), v.clone()));
        proof {
            assert(pairs_view(out.routing_headers@) =~= seq![(k@, v@)] + pairs_view(before));
        }
    }
    if str_eq(k.as_str(), "exchange") {
        out.exchange = v;
    } else if str_eq(k.as_str(), "routing_key") {
        out.routing_key = v;
    } else if str_eq(k.as_str(), "queue") {
        if out.exchange.as_str().unicode_len() == 0 {
            out.routing_key = v;
        }
    } else if str_eq(k.as_str(), "priority") {
        out.priority = match parse_u64_bytes(v.as_str().as_bytes()) {
            Some(n) => if n <= 255 { n as u8 } else { 0 },
            None => 0,
        };
    } else if str_eq(k.as_str(), "expiration") {
        out.expiration_ms = parse_u64_bytes(v.as_str().as_bytes());
    } else if with_message_id && str_eq(k.as_str(), "message-id") {
        out.message_id = Some(v);
    } else {
        let mut line = copy_range(h, a, e);
        line.push(13);
        line.push(10);
        let ghost before = out.user_headers@;
        out.user_headers.append(&mut line);
        assert(out.user_headers@ =~= before + h@.subrange(a as int, e as int) + seq![13u8, 10u8]);
    }
}

/// Reads the headers of a publish. Lines without `:` are ignored; the
/// `message-id` key is read as such only when `with_message_id` is set
/// (and otherwise kept among the message's headers).
pub fn parse_publish_headers(headers: &str, with_message_id: bool) -> (r: PublishHeaders)
    ensures
        r.fields() == publish_fold(
            headers.spec_bytes(),
            keyed_lines(headers.spec_bytes(), 0),
            with_message_id,
        ),
        pairs_view(r.routing_headers@) == routing_fold(
            headers.spec_bytes(),
            keyed_lines(headers.spec_bytes(), 0),
        ),
{
    let h = headers.as_bytes();
    proof {
        encode_utf8_valid_utf8(headers@);
    }
    let lines = find_keyed_lines(h);
    let ghost ls = keyed_lines(h@, 0);
    let mut out = PublishHeaders {
        exchange: String::new(),
        routing_key: String::new(),
        priority: 0,
        expiration_ms: None,
        user_headers: Vec::new(),
        message_id: None,
        routing_headers: Vec::new(),
    };
    proof {
        assert(out.fields() =~= no_publish_headers());
        assert(ls.subrange(0, 0) =~= Seq::<(int, int, int)>::empty());
        assert(pairs_view(out.routing_headers@) =~= Seq::<(Seq<char>, Seq<char>)>::empty());
    }
    let mut i: usize = 0;
    while i < lines.len()
        invariant
            valid_utf8(h@),
            h@ == headers.spec_bytes(),
            ls == keyed_lines(h@, 0),
            triples_of(lines@) == ls,
            forall|j: int| 0 <= j < lines@.len() ==> keyed_line_ok(h@, #[trigger] triple_of(lines@[j])),
            i <= lines@.len(),
            out.fields() == publish_fold(h@, ls.subrange(0, i as int), with_message_id),
            pairs_view(out.routing_headers@) == routing_fold(h@, ls.subrange(0, i as int)),
        decreases lines@.len() - i,
    {
        let (a, c, e) = lines[i];
        proof {
            assert(triple_of(lines@[i as int]) == ls[i as int]);
            let pre = ls.subrange(0, i + 1);
            assert(pre.drop_last() =~= ls.subrange(0, i as int));
            assert(pre.last() == ls[i as int]);
        }
        apply_publish_line(&mut out, h, a, c, e, with_message_id);
        i = i + 1;
    }
    proof {
        assert(ls.subrange(0, lines@.len() as int) =~= ls);
    }
    out
}

/// Whether the headers of a nack ask for the message to be requeued: a
/// line `requeue:true` among the keyed lines.
pub open spec fn requeue_asked(h: Seq<u8>, ls: Seq<(int, int, int)>) -> bool {
    exists|i: int| 0 <= i < ls.len() && line_key(h, #[trigger] ls[i]) == "requeue"@ && line_value(h, ls[i]) == "true"@
}

/// Reads whether a nack asks for its message to be requeued.
pub fn nack_requeue(headers: &str) -> (r: bool)
    ensures
        r == requeue_asked(headers.spec_bytes(), keyed_lines(headers.spec_bytes(), 0)),
{
    let h = headers.as_bytes();
    proof {
        encode_utf8_valid_utf8(headers@);
    }
    let lines = find_keyed_lines(h);
    let ghost ls = keyed_lines(h@, 0);
    let mut i: usize = 0;
    while i < lines.len()
        invariant
            valid_utf8(h@),
            h@ == headers.spec_bytes(),
            ls == keyed_lines(h@, 0),
            triples_of(lines@) == ls,
            forall|j: int| 0 <= j < lines@.len() ==> keyed_line_ok(h@, #[trigger] triple_of(lines@[j])),
            i <= lines@.len(),
            forall|j: int| 0 <= j < i ==> !(line_key(h@, #[trigger] ls[j]) == "requeue"@ && line_value(h@, ls[j]) == "true"@),
        decreases lines@.len() - i,
    {
        let (a, c, e) = lines[i];
        proof {
            assert(triple_of(lines@[i as int]) == ls[i as int]);
        }
        let k = text_between(h, a, c);
        let v = text_between(h, c + 1, e);
        if str_eq(k.as_str(), "requeue") && str_eq(v.as_str(), "true") {
            return true;
        }
        i = i + 1;
    }
    false
}

/// What becomes of a nacked message.
#[derive(Debug, Clone, Copy, PartialEq, Eq, Structural)]
pub enum NackOutcome {
    /// Back to the front of its queue, marked redelivered.
    Requeue,
    /// To the queue's dead-letter exchange, if it has one.
    DeadLetter,
}

/// The outcome of a nack and the message's delivery count after it: a
/// requeue counts one more delivery and dead-letters the message once the
/// count passes the queue's retry limit.
pub open spec fn nack_outcome_spec(requeue: bool, delivery_count: u32, max_retries: Option<u32>) -> (
    NackOutcome,
    u32,
) {
    if !requeue {
        (NackOutcome::DeadLetter, delivery_count)
    } else {
        let n = (delivery_count + 1) as u32;
        match max_retries {
            Some(max) => if n > max {
                (NackOutcome::DeadLetter, n)
            } else {
                (NackOutcome::Requeue, n)
            },
            None => (NackOutcome::Requeue, n),
        }
    }
}

/// Decides what becomes of a nacked message.
pub fn nack_outcome(requeue: bool, delivery_count: u32, max_retries: Option<u32>) -> (r: (
    NackOutcome,
    u32,
))
    requires
        requeue ==> delivery_count < u32::MAX,
    ensures
        r == nack_outcome_spec(requeue, delivery_count, max_retries),
{
    if !requeue {
        (NackOutcome::DeadLetter, delivery_count)
    } else {
        let n = delivery_count + 1;
        match max_retries {
            Some(max) => if n > max {
                (NackOutcome::DeadLetter, n)
            } else {
                (NackOutcome::Requeue, n)
            },
            None => (NackOutcome::Requeue, n),
        }
    }
}

/// Where a queue dead-letters: its dead-letter exchange, with its
/// dead-letter routing key (empty when unset); `None` without an exchange.
pub fn dead_letter_target(exchange: &Option<String>, routing_key: &Option<String>) -> (r: Option<
    (String, String),
>)
    ensures
        match exchange {
            Some(x) => r matches Some((ex, rk)) && ex@ == x@ && rk@ == match routing_key {
                Some(k) => k@,
                None => Seq::<char>::empty(),
            },
            None => r is None,
        },
{
    match exchange {
        Some(x) => {
            let rk = match routing_key {
                Some(k) => k.clone(),
                None => String::new(),
            };
            Some((x.clone(), rk))
        },
        None => None,
    }
}

} // verus!
