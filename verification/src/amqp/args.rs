//! Arguments of channel and basic methods that the broker builds or reads
//! on its own: channel errors, deliveries, publishes, and the message id
//! carried in inline headers.

use vstd::prelude::*;
use vstd::utf8::*;
use vstd::string::*;
use crate::amqp::types::{
    be16, be64, shortstr_bytes, write_longlong, write_octet, write_short, write_shortstr,
    utf8_str, WireReader,
};
use crate::storage::stream::{parse_u64_bytes, parse_u64_spec};

verus! {

/// The arguments of `Channel.Close`: reply code and text, and the class
/// and method that caused it.
pub fn build_channel_close(code: u16, text: &str, class_id: u16, method_id: u16) -> (r: Vec<u8>)
    requires
        text.spec_bytes().len() <= 255,
    ensures
        r@ == be16(code) + shortstr_bytes(text.spec_bytes()) + be16(class_id) + be16(method_id),
{
    let mut buf: Vec<u8> = Vec::new();
    write_short(&mut buf, code);
    let _ = write_shortstr(&mut buf, text);
    write_short(&mut buf, class_id);
    write_short(&mut buf, method_id);
    assert(buf@ =~= be16(code) + shortstr_bytes(text.spec_bytes()) + be16(class_id) + be16(
        method_id,
    ));
    buf
}

/// The arguments of `Basic.Deliver`: consumer tag, delivery tag, the
/// redelivered flag, and the exchange and routing key published to.
pub fn build_deliver_args(
    consumer_tag: &str,
    delivery_tag: u64,
    redelivered: bool,
    exchange: &str,
    routing_key: &str,
) -> (r: Vec<u8>)
    requires
        consumer_tag.spec_bytes().len() <= 255,
        exchange.spec_bytes().len() <= 255,
        routing_key.spec_bytes().len() <= 255,
    ensures
        r@ == shortstr_bytes(consumer_tag.spec_bytes()) + be64(delivery_tag) + seq![
            if redelivered { 1u8 } else { 0u8 },
        ] + shortstr_bytes(exchange.spec_bytes()) + shortstr_bytes(routing_key.spec_bytes()),
{
    let mut args: Vec<u8> = Vec::new();
    let _ = write_shortstr(&mut args, consumer_tag);
    write_longlong(&mut args, delivery_tag);
    write_octet(&mut args, if redelivered { 1 } else { 0 });
    let _ = write_shortstr(&mut args, exchange);
    let _ = write_shortstr(&mut args, routing_key);
    assert(args@ =~= shortstr_bytes(consumer_tag.spec_bytes()) + be64(delivery_tag) + seq![
        if redelivered { 1u8 } else { 0u8 },
    ] + shortstr_bytes(exchange.spec_bytes()) + shortstr_bytes(routing_key.spec_bytes()));
    args
}

// ─── Basic.Publish ────────────────────────────────────────────────────

/// A short string at `pos`: its bytes and the position after it, or
/// `None` when it is cut short or is not UTF-8.
pub open spec fn shortstr_at(s: Seq<u8>, pos: int) -> Option<(Seq<u8>, int)> {
    if pos < 0 || pos >= s.len() {
        None
    } else {
        let n = s[pos] as int;
        if pos + 1 + n > s.len() || !valid_utf8(s.subrange(pos + 1, pos + 1 + n)) {
            None
        } else {
            Some((s.subrange(pos + 1, pos + 1 + n), pos + 1 + n))
        }
    }
}

/// The exchange, routing key and flag octet of `Basic.Publish`, read in
/// turn after the ticket; a field that cannot be read counts as empty (or
/// zero) and the next one is read from the same place.
pub open spec fn publish_fields(s: Seq<u8>) -> (Seq<u8>, Seq<u8>, u8) {
    let p0: int = if s.len() >= 2 { 2 } else { 0 };
    let (ex, p1) = match shortstr_at(s, p0) {
        Some(x) => x,
        None => (Seq::empty(), p0),
    };
    let (rk, p2) = match shortstr_at(s, p1) {
        Some(x) => x,
        None => (Seq::empty(), p1),
    };
    let flags: u8 = if p2 < s.len() { s[p2] } else { 0 };
    (ex, rk, flags)
}

/// Reads a short string, or gives the empty string where it cannot.
pub(crate) fn shortstr_or_empty(rd: &mut WireReader) -> (r: String)
    requires
        old(rd).pos <= old(rd).data@.len(),
    ensures
        final(rd).data == old(rd).data,
        final(rd).pos <= final(rd).data@.len(),
        match shortstr_at(old(rd).data@, old(rd).pos as int) {
            Some((b, p)) => encode_utf8(r@) == b && final(rd).pos == p,
            None => r@ == Seq::<char>::empty() && final(rd).pos == old(rd).pos,
        },
{
    let ghost rest = rd.rest();
    let ghost pos = rd.pos as int;
    assert(pos < rd.data@.len() ==> rest[0] == rd.data@[pos]);
    assert(pos + 1 + rd.data@[pos] as int <= rd.data@.len() ==> rest.subrange(
        1,
        1 + rd.data@[pos] as int,
    ) =~= rd.data@.subrange(pos + 1, pos + 1 + rd.data@[pos] as int));
    match rd.read_shortstr() {
        Ok(s) => s,
        Err(_) => String::new(),
    }
}

/// Reads `Basic.Publish`: exchange, routing key, and the mandatory and
/// immediate flags (bits 0 and 1 of the flag octet).
pub fn parse_publish_args(args: &[u8]) -> (r: (String, String, bool, bool))
    ensures
        ({
            let (ex, rk, flags) = publish_fields(args@);
            &&& encode_utf8(r.0@) == ex
            &&& encode_utf8(r.1@) == rk
            &&& r.2 == (flags % 2 == 1)
            &&& r.3 == ((flags / 2) % 2 == 1)
        }),
{
    let mut rd = WireReader::new(args);
    let _ticket = match rd.read_short() {
        Ok(t) => t,
        Err(_) => 0,
    };
    let exchange = shortstr_or_empty(&mut rd);
    let routing_key = shortstr_or_empty(&mut rd);
    let flags: u8 = if rd.pos < args.len() {
        args[rd.pos]
    } else {
        0
    };
    proof {
        encode_utf8_decode_utf8(Seq::<char>::empty());
        assert(encode_utf8(Seq::<char>::empty()) =~= Seq::<u8>::empty()) by {
            reveal_with_fuel(encode_utf8, 1);
        }
    }
    assert((flags & 1u8 != 0) == (flags % 2 == 1)) by (bit_vector);
    assert((flags & 2u8 != 0) == ((flags / 2) % 2 == 1)) by (bit_vector);
    let mandatory = flags & 0x01 != 0;
    let immediate = flags & 0x02 != 0;
    (exchange, routing_key, mandatory, immediate)
}

// ─── Inline message id ────────────────────────────────────────────────

/// The position of the first `\r\n` at or after `from`, or `s.len()`.
pub open spec fn crlf_from(s: Seq<u8>, from: int) -> int
    decreases s.len() - from,
{
    if from < 0 || from + 1 >= s.len() {
        s.len() as int
    } else if s[from] == 13 && s[from + 1] == 10 {
        from
    } else {
        crlf_from(s, from + 1)
    }
}

/// A line ends at or after where it starts, and within the headers.
pub proof fn lemma_crlf_from_bounds(s: Seq<u8>, from: int)
    requires
        0 <= from <= s.len(),
    ensures
        from <= crlf_from(s, from) <= s.len(),
        crlf_from(s, from) < s.len() ==> crlf_from(s, from) + 1 < s.len(),
    decreases s.len() - from,
{
    if from + 1 < s.len() && !(s[from] == 13 && s[from + 1] == 10) {
        lemma_crlf_from_bounds(s, from + 1);
    }
}

/// The value of the first line, from `from` on, that starts with `id:`:
/// the decimal number after the prefix, or `None` when that line holds no
/// `u64` or no line starts so.
pub open spec fn id_line_value(s: Seq<u8>, from: int) -> Option<u64>
    decreases s.len() - from,
{
    if from < 0 || from > s.len() {
        None
    } else {
        let e = crlf_from(s, from);
        let line = s.subrange(from, e);
        if line.len() >= 3 && line[0] == 105 && line[1] == 100 && line[2] == 58 {
            parse_u64_spec(line.subrange(3, line.len() as int))
        } else if e >= s.len() {
            None
        } else {
            proof {
                lemma_crlf_from_bounds(s, from);
            }
            id_line_value(s, e + 2)
        }
    }
}

/// Finds the next `\r\n` at or after `from`.
fn find_crlf(s: &[u8], from: usize) -> (r: usize)
    requires
        from <= s@.len(),
    ensures
        r == crlf_from(s@, from as int),
        from <= r <= s@.len(),
{
    let mut i = from;
    while s.len() - i > 1
        invariant
            from <= i <= s@.len(),
            crlf_from(s@, from as int) == crlf_from(s@, i as int),
        decreases s@.len() - i,
    {
        if s[i] == 13 && s[i + 1] == 10 {
            return i;
        }
        i = i + 1;
    }
    s.len()
}

/// The message id carried in inline headers: UTF-8 lines separated by
/// `\r\n`, the first one starting with `id:` giving the id in decimal.
pub fn parse_msg_id(headers: &[u8]) -> (r: Option<u64>)
    ensures
        r == if valid_utf8(headers@) {
            id_line_value(headers@, 0)
        } else {
            None
        },
{
    if utf8_str(headers).is_none() {
        return None;
    }
    let mut from: usize = 0;
    loop
        invariant
            from <= headers@.len(),
            valid_utf8(headers@),
            id_line_value(headers@, 0) == id_line_value(headers@, from as int),
        decreases headers@.len() - from,
    {
        let e = find_crlf(headers, from);
        proof {
            lemma_crlf_from_bounds(headers@, from as int);
        }
        let ghost line = headers@.subrange(from as int, e as int);
        if e - from >= 3 && headers[from] == 105 && headers[from + 1] == 100 && headers[from + 2]
            == 58 {
            let digits = crate::amqp::types::copy_range(headers, from + 3, e);
            assert(digits@ =~= line.subrange(3, line.len() as int));
            assert(line[0] == 105 && line[1] == 100 && line[2] == 58);
            assert(id_line_value(headers@, from as int) == parse_u64_spec(digits@));
            return parse_u64_bytes(digits.as_slice());
        }
        if e >= headers.len() {
            return None;
        }
        from = e + 2;
    }
}

} // verus!
