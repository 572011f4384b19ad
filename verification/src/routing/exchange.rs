//! Exchange types (direct, fanout, topic, headers) and routing.

use vstd::prelude::*;
use vstd::utf8::encode_utf8;
use crate::routing::topic::{str_eq, topic_matches, topic_match_spec};

verus! {

/// AMQP exchange type: the routing algorithm applied to a published message.
#[derive(Clone, Copy, Debug, PartialEq, Eq, Structural)]
pub enum ExchangeType {
    Direct,
    Fanout,
    Topic,
    Headers,
}

/// The exchange type a name stands for.
pub open spec fn exchange_type_of(s: Seq<char>) -> Option<ExchangeType> {
    if s == "direct"@ {
        Some(ExchangeType::Direct)
    } else if s == "fanout"@ {
        Some(ExchangeType::Fanout)
    } else if s == "topic"@ {
        Some(ExchangeType::Topic)
    } else if s == "headers"@ {
        Some(ExchangeType::Headers)
    } else {
        None
    }
}

/// The canonical name of an exchange type.
pub open spec fn exchange_type_name(t: ExchangeType) -> Seq<char> {
    match t {
        ExchangeType::Direct => "direct"@,
        ExchangeType::Fanout => "fanout"@,
        ExchangeType::Topic => "topic"@,
        ExchangeType::Headers => "headers"@,
    }
}

/// The wire byte of an exchange type.
pub open spec fn exchange_type_byte(t: ExchangeType) -> u8 {
    match t {
        ExchangeType::Direct => 0,
        ExchangeType::Fanout => 1,
        ExchangeType::Topic => 2,
        ExchangeType::Headers => 3,
    }
}

impl ExchangeType {
    /// Parses `"direct"`, `"fanout"`, `"topic"` or `"headers"`; `None` for
    /// anything else.
    pub fn from_str(s: &str) -> (r: Option<Self>)
        ensures
            r == exchange_type_of(s@),
    {
        if str_eq(s, "direct") {
            Some(ExchangeType::Direct)
        } else if str_eq(s, "fanout") {
            Some(ExchangeType::Fanout)
        } else if str_eq(s, "topic") {
            Some(ExchangeType::Topic)
        } else if str_eq(s, "headers") {
            Some(ExchangeType::Headers)
        } else {
            None
        }
    }

    /// The canonical name of this exchange type.
    pub fn as_str(&self) -> (r: &'static str)
        ensures
            r@ == exchange_type_name(*self),
    {
        match self {
            ExchangeType::Direct => "direct",
            ExchangeType::Fanout => "fanout",
            ExchangeType::Topic => "topic",
            ExchangeType::Headers => "headers",
        }
    }

    /// The single-byte wire encoding of this exchange type.
    pub fn to_byte(&self) -> (r: u8)
        ensures
            r == exchange_type_byte(*self),
    {
        match self {
            ExchangeType::Direct => 0x00,
            ExchangeType::Fanout => 0x01,
            ExchangeType::Topic => 0x02,
            ExchangeType::Headers => 0x03,
        }
    }
}

/// Parsing the name of an exchange type gives back the type.
pub proof fn lemma_exchange_type_name_roundtrip(t: ExchangeType)
    ensures
        exchange_type_of(exchange_type_name(t)) == Some(t),
{
    reveal_strlit("direct");
    reveal_strlit("fanout");
    reveal_strlit("topic");
    reveal_strlit("headers");
    assert("direct"@[0] == 'd');
    assert("fanout"@[0] == 'f');
    assert("topic"@[0] == 't');
    assert("headers"@[0] == 'h');
}

/// Match mode for headers exchanges: `All` needs every listed header,
/// `Any` at least one.
#[derive(Clone, Debug)]
pub enum HeadersMatch {
    All(Vec<(String, String)>),
    Any(Vec<(String, String)>),
}

/// A binding between an exchange and a queue.
#[derive(Clone, Debug)]
pub struct Binding {
    pub queue_name: String,
    pub routing_key: String,
    pub headers_match: Option<HeadersMatch>,
}

/// An exchange routes published messages to the queues bound to it.
#[derive(Clone, Debug)]
pub struct Exchange {
    pub name: String,
    pub kind: ExchangeType,
    pub durable: bool,
    pub auto_delete: bool,
    pub bindings: Vec<Binding>,
}

/// The value the first header named `k` carries in `h`, if any.
pub open spec fn header_value(h: Seq<(String, String)>, k: Seq<char>) -> Option<Seq<char>>
    decreases h.len(),
{
    if h.len() == 0 {
        None
    } else if h[0].0@ == k {
        Some(h[0].1@)
    } else {
        header_value(h.drop_first(), k)
    }
}

/// Whether the message headers carry the pair `(k, v)`.
pub open spec fn carries(h: Seq<(String, String)>, kv: (String, String)) -> bool {
    header_value(h, kv.0@) == Some(kv.1@)
}

/// Whether a binding's header requirement is met by the message headers.
pub open spec fn headers_selected(m: Option<HeadersMatch>, h: Seq<(String, String)>) -> bool {
    match m {
        Some(HeadersMatch::All(req)) => forall|i: int|
            0 <= i < req@.len() ==> #[trigger] carries(h, req@[i]),
        Some(HeadersMatch::Any(req)) => exists|i: int|
            0 <= i < req@.len() && #[trigger] carries(h, req@[i]),
        None => false,
    }
}

/// Whether an exchange of type `kind` sends a message with routing key
/// `key` and headers `h` along binding `b`.
pub open spec fn binding_selected(
    kind: ExchangeType,
    b: Binding,
    key: Seq<char>,
    h: Seq<(String, String)>,
) -> bool {
    match kind {
        ExchangeType::Direct => b.routing_key@ == key,
        ExchangeType::Fanout => true,
        ExchangeType::Topic => topic_match_spec(encode_utf8(b.routing_key@), encode_utf8(key)),
        ExchangeType::Headers => headers_selected(b.headers_match, h),
    }
}

/// The queue names of the bindings among `bs` that are selected, in
/// binding order.
pub open spec fn routed_queues(
    kind: ExchangeType,
    bs: Seq<Binding>,
    key: Seq<char>,
    h: Seq<(String, String)>,
) -> Seq<Seq<char>>
    decreases bs.len(),
{
    if bs.len() == 0 {
        Seq::empty()
    } else {
        let prev = routed_queues(kind, bs.drop_last(), key, h);
        if binding_selected(kind, bs.last(), key, h) {
            prev.push(bs.last().queue_name@)
        } else {
            prev
        }
    }
}

/// Whether `bs` already holds a binding of `queue` with `key`.
pub open spec fn has_binding(bs: Seq<Binding>, queue: Seq<char>, key: Seq<char>) -> bool {
    exists|i: int| 0 <= i < bs.len() && #[trigger] bs[i].queue_name@ == queue && bs[i].routing_key@ == key
}

/// The bindings of `bs` that do not bind `queue` with `key`, in order.
pub open spec fn without_binding(bs: Seq<Binding>, queue: Seq<char>, key: Seq<char>) -> Seq<Binding>
    decreases bs.len(),
{
    if bs.len() == 0 {
        Seq::empty()
    } else {
        let prev = without_binding(bs.drop_last(), queue, key);
        if bs.last().queue_name@ == queue && bs.last().routing_key@ == key {
            prev
        } else {
            prev.push(bs.last())
        }
    }
}

/// Looks up the first header named `k`.
fn lookup_header<'a>(h: &'a [(String, String)], k: &String) -> (r: Option<&'a String>)
    ensures
        match header_value(h@, k@) {
            Some(v) => r matches Some(s) && s@ == v,
            None => r is None,
        },
{
    let mut i: usize = 0;
    assert(h@.subrange(0, h@.len() as int) =~= h@);
    while i < h.len()
        invariant
            i <= h@.len(),
            header_value(h@, k@) == header_value(h@.subrange(i as int, h@.len() as int), k@),
        decreases h@.len() - i,
    {
        let ghost rest = h@.subrange(i as int, h@.len() as int);
        assert(rest.drop_first() =~= h@.subrange(i + 1, h@.len() as int));
        if h[i].0 == *k {
            return Some(&h[i].1);
        }
        i = i + 1;
    }
    None
}

/// Whether the message headers carry the pair `kv`.
fn carries_pair(h: &[(String, String)], kv: &(String, String)) -> (r: bool)
    ensures
        r == carries(h@, *kv),
{
    match lookup_header(h, &kv.0) {
        Some(v) => *v == kv.1,
        None => false,
    }
}

/// Whether the binding's header requirement is met.
fn headers_match_ok(m: &Option<HeadersMatch>, h: &[(String, String)]) -> (r: bool)
    ensures
        r == headers_selected(*m, h@),
{
    match m {
        Some(HeadersMatch::All(req)) => {
            let mut i: usize = 0;
            while i < req.len()
                invariant
                    *m == Some(HeadersMatch::All(*req)),
                    i <= req@.len(),
                    forall|t: int| 0 <= t < i ==> #[trigger] carries(h@, req@[t]),
                decreases req@.len() - i,
            {
                if !carries_pair(h, &req[i]) {
                    assert(!carries(h@, req@[i as int]));
                    let ghost hm = *m;
                    assert(hm matches Some(HeadersMatch::All(q)) && q@ == req@);
                    return false;
                }
                i = i + 1;
            }
            true
        },
        Some(HeadersMatch::Any(req)) => {
            let mut i: usize = 0;
            while i < req.len()
                invariant
                    *m == Some(HeadersMatch::Any(*req)),
                    i <= req@.len(),
                    forall|t: int| 0 <= t < i ==> !#[trigger] carries(h@, req@[t]),
                decreases req@.len() - i,
            {
                if carries_pair(h, &req[i]) {
                    assert(carries(h@, req@[i as int]));
                    let ghost hm = *m;
                    assert(hm matches Some(HeadersMatch::Any(q)) && q@ == req@);
                    return true;
                }
                i = i + 1;
            }
            false
        },
        None => false,
    }
}

impl Exchange {
    /// A new exchange with no bindings.
    pub fn new(name: String, kind: ExchangeType, durable: bool) -> (r: Self)
        ensures
            r.name == name,
            r.kind == kind,
            r.durable == durable,
            !r.auto_delete,
            r.bindings@.len() == 0,
    {
        Exchange { name, kind, durable, auto_delete: false, bindings: Vec::new() }
    }

    /// Adds a binding unless one with the same queue and routing key exists.
    pub fn add_binding(&mut self, binding: Binding)
        ensures
            final(self).name == old(self).name,
            final(self).kind == old(self).kind,
            final(self).durable == old(self).durable,
            final(self).auto_delete == old(self).auto_delete,
            has_binding(old(self).bindings@, binding.queue_name@, binding.routing_key@) ==> final(self).bindings@ == old(self).bindings@,
            !has_binding(old(self).bindings@, binding.queue_name@, binding.routing_key@) ==> final(self).bindings@ == old(self).bindings@.push(binding),
    {
        let mut i: usize = 0;
        while i < self.bindings.len()
            invariant
                i <= self.bindings@.len(),
                self.bindings@ == old(self).bindings@,
                forall|t: int|
                    0 <= t < i ==> !(#[trigger] self.bindings@[t].queue_name@ == binding.queue_name@
                        && self.bindings@[t].routing_key@ == binding.routing_key@),
            decreases self.bindings@.len() - i,
        {
            if self.bindings[i].queue_name == binding.queue_name && self.bindings[i].routing_key
                == binding.routing_key {
                return;
            }
            i = i + 1;
        }
        self.bindings.push(binding);
    }

    /// Removes every binding of `queue_name` with `routing_key`.
    pub fn remove_binding(&mut self, queue_name: &str, routing_key: &str)
        ensures
            final(self).name == old(self).name,
            final(self).kind == old(self).kind,
            final(self).durable == old(self).durable,
            final(self).auto_delete == old(self).auto_delete,
            final(self).bindings@ == without_binding(old(self).bindings@, queue_name@, routing_key@),
    {
        let mut rest: Vec<Binding> = Vec::new();
        std::mem::swap(&mut rest, &mut self.bindings);
        let ghost all = old(self).bindings@;
        let mut kept: Vec<Binding> = Vec::new();
        let ghost mut i: int = 0;
        while rest.len() > 0
            invariant
                0 <= i <= all.len(),
                rest@ == all.subrange(i, all.len() as int),
                kept@ == without_binding(all.subrange(0, i), queue_name@, routing_key@),
            decreases rest@.len(),
        {
            assert(all.subrange(0, i + 1).drop_last() =~= all.subrange(0, i));
            let b = rest.remove(0);
            assert(b == all[i]);
            if !(str_eq(b.queue_name.as_str(), queue_name) && str_eq(
                b.routing_key.as_str(),
                routing_key,
            )) {
                kept.push(b);
            }
            proof {
                i = i + 1;
            }
            assert(rest@ =~= all.subrange(i, all.len() as int));
        }
        assert(all.subrange(0, all.len() as int) =~= all);
        self.bindings = kept;
    }

    /// Routes a message, returning the names of all queues whose bindings
    /// match the routing key and headers, in binding order.
    pub fn route(&self, routing_key: &str, headers: &[(String, String)]) -> (r: Vec<String>)
        ensures
            r@.len() == routed_queues(self.kind, self.bindings@, routing_key@, headers@).len(),
            forall|i: int|
                0 <= i < r@.len() ==> #[trigger] r@[i]@ == routed_queues(
                    self.kind,
                    self.bindings@,
                    routing_key@,
                    headers@,
                )[i],
    {
        let mut out: Vec<String> = Vec::new();
        let mut i: usize = 0;
        while i < self.bindings.len()
            invariant
                i <= self.bindings@.len(),
                out@.len() == routed_queues(
                    self.kind,
                    self.bindings@.subrange(0, i as int),
                    routing_key@,
                    headers@,
                ).len(),
                forall|t: int|
                    0 <= t < out@.len() ==> #[trigger] out@[t]@ == routed_queues(
                        self.kind,
                        self.bindings@.subrange(0, i as int),
                        routing_key@,
                        headers@,
                    )[t],
            decreases self.bindings@.len() - i,
        {
            let ghost bs = self.bindings@.subrange(0, i + 1);
            assert(bs.drop_last() =~= self.bindings@.subrange(0, i as int));
            assert(bs.last() == self.bindings@[i as int]);
            let b = &self.bindings[i];
            let selected = match self.kind {
                ExchangeType::Direct => str_eq(b.routing_key.as_str(), routing_key),
                ExchangeType::Fanout => true,
                ExchangeType::Topic => topic_matches(b.routing_key.as_str(), routing_key),
                ExchangeType::Headers => headers_match_ok(&b.headers_match, headers),
            };
            if selected {
                out.push(b.queue_name.clone());
            }
            i = i + 1;
        }
        assert(self.bindings@.subrange(0, self.bindings@.len() as int) =~= self.bindings@);
        out
    }
}

/// The pre-declared exchanges: `""` (direct), `amq.direct`, `amq.fanout`,
/// `amq.topic` and `amq.headers`, all durable.
pub fn create_default_exchanges() -> (r: Vec<Exchange>)
    ensures
        r@.len() == 5,
        r@[0].name@ == ""@ && r@[0].kind == ExchangeType::Direct,
        r@[1].name@ == "amq.direct"@ && r@[1].kind == ExchangeType::Direct,
        r@[2].name@ == "amq.fanout"@ && r@[2].kind == ExchangeType::Fanout,
        r@[3].name@ == "amq.topic"@ && r@[3].kind == ExchangeType::Topic,
        r@[4].name@ == "amq.headers"@ && r@[4].kind == ExchangeType::Headers,
        forall|i: int|
            0 <= i < 5 ==> #[trigger] r@[i].durable && !r@[i].auto_delete && r@[i].bindings@.len()
                == 0,
{
    let mut v: Vec<Exchange> = Vec::new();
    v.push(Exchange::new(String::new(), ExchangeType::Direct, true));
    v.push(Exchange::new("amq.direct".to_owned(), ExchangeType::Direct, true));
    v.push(Exchange::new("amq.fanout".to_owned(), ExchangeType::Fanout, true));
    v.push(Exchange::new("amq.topic".to_owned(), ExchangeType::Topic, true));
    v.push(Exchange::new("amq.headers".to_owned(), ExchangeType::Headers, true));
    proof {
        reveal_strlit("");
    }
    v
}

/// The queue names of bindings, in binding order.
pub open spec fn bound_queues(bs: Seq<Binding>) -> Seq<Seq<char>>
    decreases bs.len(),
{
    if bs.len() == 0 {
        Seq::empty()
    } else {
        bound_queues(bs.drop_last()).push(bs.last().queue_name@)
    }
}

/// A fanout exchange sends every message to every bound queue, in
/// binding order, whatever its routing key and headers.
pub proof fn lemma_fanout_routes_every_binding(bs: Seq<Binding>, key: &str, h: Seq<(String, String)>)
    ensures
        routed_queues(ExchangeType::Fanout, bs, key@, h) == bound_queues(bs),
    decreases bs.len(),
{
    if bs.len() > 0 {
        lemma_fanout_routes_every_binding(bs.drop_last(), key, h);
    }
}

/// Every queue a message is routed to is bound to the exchange.
pub proof fn lemma_routed_queues_are_bound(
    kind: ExchangeType,
    bs: Seq<Binding>,
    key: Seq<char>,
    h: Seq<(String, String)>,
    q: Seq<char>,
)
    requires
        routed_queues(kind, bs, key, h).contains(q),
    ensures
        exists|i: int| 0 <= i < bs.len() && #[trigger] bs[i].queue_name@ == q,
    decreases bs.len(),
{
    let prev = routed_queues(kind, bs.drop_last(), key, h);
    if prev.contains(q) {
        lemma_routed_queues_are_bound(kind, bs.drop_last(), key, h, q);
        let i = choose|i: int| 0 <= i < bs.drop_last().len() && #[trigger] bs.drop_last()[i].queue_name@ == q;
        assert(bs[i] == bs.drop_last()[i]);
    } else {
        assert(bs[bs.len() - 1].queue_name@ == q);
    }
}

/// Once a queue's binding with a key is removed from a direct exchange,
/// messages with that key no longer reach the queue.
pub proof fn lemma_unbound_direct_not_routed(
    bs: Seq<Binding>,
    q: Seq<char>,
    k: &str,
    h: Seq<(String, String)>,
)
    ensures
        !routed_queues(ExchangeType::Direct, without_binding(bs, q, k@), k@, h).contains(q),
    decreases bs.len(),
{
    if bs.len() > 0 {
        lemma_unbound_direct_not_routed(bs.drop_last(), q, k, h);
        let w = without_binding(bs.drop_last(), q, k@);
        let last = bs.last();
        if !(last.queue_name@ == q && last.routing_key@ == k@) {
            let ws = w.push(last);
            assert(ws.drop_last() =~= w);
            assert(ws.last() == last);
            let r = routed_queues(ExchangeType::Direct, ws, k@, h);
            let prev = routed_queues(ExchangeType::Direct, w, k@, h);
            if binding_selected(ExchangeType::Direct, last, k@, h) {
                assert(last.queue_name@ != q);
                assert(r == prev.push(last.queue_name@));
                if r.contains(q) {
                    let i = choose|i: int| 0 <= i < r.len() && r[i] == q;
                    if i < prev.len() {
                        assert(prev[i] == q);
                    }
                }
            }
        }
    }
}

/// Header texts: each pair seen as its key's and value's characters.
pub open spec fn header_texts(h: Seq<(String, String)>) -> Seq<(Seq<char>, Seq<char>)> {
    h.map_values(|p: (String, String)| (p.0@, p.1@))
}

proof fn lemma_header_value_views(h1: Seq<(String, String)>, h2: Seq<(String, String)>, k: Seq<char>)
    requires
        header_texts(h1) == header_texts(h2),
    ensures
        header_value(h1, k) == header_value(h2, k),
    decreases h1.len(),
{
    assert(h1.len() == header_texts(h1).len());
    assert(h2.len() == header_texts(h2).len());
    if h1.len() > 0 {
        assert(header_texts(h1)[0] == header_texts(h2)[0]);
        assert(header_texts(h1.drop_first()) =~= header_texts(h1).drop_first());
        assert(header_texts(h2.drop_first()) =~= header_texts(h2).drop_first());
        lemma_header_value_views(h1.drop_first(), h2.drop_first(), k);
    }
}

/// Routing depends on the message headers only through their texts: two
/// header lists with the same keys and values, in the same order, route a
/// message to the same queues.
pub proof fn lemma_routing_by_header_texts(
    kind: ExchangeType,
    bs: Seq<Binding>,
    key: Seq<char>,
    h1: Seq<(String, String)>,
    h2: Seq<(String, String)>,
)
    requires
        header_texts(h1) == header_texts(h2),
    ensures
        routed_queues(kind, bs, key, h1) == routed_queues(kind, bs, key, h2),
    decreases bs.len(),
{
    if bs.len() > 0 {
        lemma_routing_by_header_texts(kind, bs.drop_last(), key, h1, h2);
        assert forall|kv: (String, String)| carries(h1, kv) == carries(h2, kv) by {
            lemma_header_value_views(h1, h2, kv.0@);
        }
        let b = bs.last();
        match b.headers_match {
            Some(HeadersMatch::All(req)) => {
                assert(headers_selected(b.headers_match, h1) == headers_selected(b.headers_match, h2)) by {
                    assert forall|i: int| 0 <= i < req@.len() implies #[trigger] carries(h1, req@[i]) == carries(h2, req@[i]) by {
                        lemma_header_value_views(h1, h2, req@[i].0@);
                    }
                }
            },
            Some(HeadersMatch::Any(req)) => {
                assert(headers_selected(b.headers_match, h1) == headers_selected(b.headers_match, h2)) by {
                    assert forall|i: int| 0 <= i < req@.len() implies #[trigger] carries(h1, req@[i]) == carries(h2, req@[i]) by {
                        lemma_header_value_views(h1, h2, req@[i].0@);
                    }
                }
            },
            None => {},
        }
    }
}

/// A queue is among those a message is routed to exactly when one of the
/// exchange's bindings of that queue selects the message.
pub proof fn lemma_routed_iff_selected(
    kind: ExchangeType,
    bs: Seq<Binding>,
    key: Seq<char>,
    h: Seq<(String, String)>,
    q: Seq<char>,
)
    ensures
        routed_queues(kind, bs, key, h).contains(q) <==> exists|i: int|
            0 <= i < bs.len() && (#[trigger] bs[i]).queue_name@ == q && binding_selected(kind, bs[i], key, h),
    decreases bs.len(),
{
    if bs.len() > 0 {
        let init = bs.drop_last();
        lemma_routed_iff_selected(kind, init, key, h, q);
        let prev = routed_queues(kind, init, key, h);
        if routed_queues(kind, bs, key, h).contains(q) {
            if prev.contains(q) {
                let i = choose|i: int| 0 <= i < init.len() && (#[trigger] init[i]).queue_name@ == q && binding_selected(kind, init[i], key, h);
                assert(bs[i] == init[i]);
            } else {
                let r = routed_queues(kind, bs, key, h);
                let j = choose|j: int| 0 <= j < r.len() && r[j] == q;
                if binding_selected(kind, bs.last(), key, h) {
                    assert(r == prev.push(bs.last().queue_name@));
                    if j < prev.len() {
                        assert(prev[j] == q);
                        assert(prev.contains(q));
                    }
                    assert(bs[bs.len() - 1].queue_name@ == q);
                } else {
                    assert(r == prev);
                }
            }
        }
        if exists|i: int| 0 <= i < bs.len() && (#[trigger] bs[i]).queue_name@ == q && binding_selected(kind, bs[i], key, h) {
            let i = choose|i: int| 0 <= i < bs.len() && (#[trigger] bs[i]).queue_name@ == q && binding_selected(kind, bs[i], key, h);
            let r = routed_queues(kind, bs, key, h);
            if i < init.len() {
                assert(init[i] == bs[i]);
                assert(prev.contains(q));
                let j = choose|j: int| 0 <= j < prev.len() && prev[j] == q;
                if binding_selected(kind, bs.last(), key, h) {
                    assert(r[j] == q);
                } else {
                    assert(r[j] == q);
                }
            } else {
                assert(r == prev.push(q));
                assert(r[prev.len() as int] == q);
            }
        }
    }
}

/// A direct exchange routes a message to a queue exactly when the queue is
/// bound with the message's routing key; a headers exchange with `all`
/// (resp. `any`) requires every (resp. some) required pair among the
/// message headers.
pub proof fn lemma_direct_and_headers_routing(bs: Seq<Binding>, key: Seq<char>, h: Seq<(String, String)>, q: Seq<char>)
    ensures
        routed_queues(ExchangeType::Direct, bs, key, h).contains(q) <==> exists|i: int|
            0 <= i < bs.len() && (#[trigger] bs[i]).queue_name@ == q && bs[i].routing_key@ == key,
        routed_queues(ExchangeType::Headers, bs, key, h).contains(q) <==> exists|i: int|
            0 <= i < bs.len() && (#[trigger] bs[i]).queue_name@ == q && match bs[i].headers_match {
                Some(HeadersMatch::All(req)) => forall|r: int| 0 <= r < req@.len() ==> #[trigger] carries(h, req@[r]),
                Some(HeadersMatch::Any(req)) => exists|r: int| 0 <= r < req@.len() && #[trigger] carries(h, req@[r]),
                None => false,
            },
{
    lemma_routed_iff_selected(ExchangeType::Direct, bs, key, h, q);
    lemma_routed_iff_selected(ExchangeType::Headers, bs, key, h, q);
}

} // verus!
