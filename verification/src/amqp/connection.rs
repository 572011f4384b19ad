//! The arguments of the `connection` class methods exchanged while a
//! connection is opened, tuned and closed.

use vstd::prelude::*;
use vstd::utf8::*;
use vstd::string::*;
use crate::amqp::types::{
    be16, be32, from_be16, from_be32, lemma_be16_roundtrip, lemma_be32_roundtrip, longstr_bytes,
    shortstr_bytes, write_long, write_longstr, write_octet, write_short, write_shortstr,
    WireError, WireReader, lossy_string, utf8_lossy,
};
use crate::amqp::codec::{DEFAULT_CHANNEL_MAX, DEFAULT_FRAME_MAX};
use crate::amqp::table::{
    encode_entries, encode_field_entries, encode_table, parse_table, read_field_table, table_get,
    table_lookup, table_view, write_field_table, FieldTable, FieldValue, FieldValueView,
};

verus! {

// ─── Tune ─────────────────────────────────────────────────────────────

/// The arguments of `Connection.Tune`: channel-max, frame-max, heartbeat.
pub fn build_connection_tune(channel_max: u16, frame_max: u32, heartbeat: u16) -> (r: Vec<u8>)
    ensures
        r@ == be16(channel_max) + be32(frame_max) + be16(heartbeat),
{
    let mut buf: Vec<u8> = Vec::new();
    write_short(&mut buf, channel_max);
    write_long(&mut buf, frame_max);
    write_short(&mut buf, heartbeat);
    assert(buf@ =~= be16(channel_max) + be32(frame_max) + be16(heartbeat));
    buf
}

/// The value a client's tune answer settles on: zero leaves the server's
/// value, and a client may lower it but not raise it.
pub open spec fn negotiated(client: int, server: int) -> int {
    if client == 0 {
        server
    } else if client < server {
        client
    } else {
        server
    }
}

/// Reads `Connection.Tune-Ok` and settles channel-max and frame-max
/// against the server's defaults; the heartbeat is taken as sent.
pub fn parse_tune_ok(args: &[u8]) -> (r: Result<(u16, u32, u16), ()>)
    ensures
        args@.len() < 8 ==> r is Err,
        args@.len() >= 8 ==> (r matches Ok((ch, fm, hb)) && ch == negotiated(
            from_be16(args@.subrange(0, 2)) as int,
            DEFAULT_CHANNEL_MAX as int,
        ) && fm == negotiated(from_be32(args@.subrange(2, 6)) as int, DEFAULT_FRAME_MAX as int)
            && hb == from_be16(args@.subrange(6, 8))),
{
    let mut rd = WireReader::new(args);
    assert(rd.rest() =~= args@);
    let channel_max = match rd.read_short() {
        Ok(v) => v,
        Err(_) => {
            return Err(());
        },
    };
    assert(rd.rest() =~= args@.subrange(2, args@.len() as int));
    let frame_max = match rd.read_long() {
        Ok(v) => v,
        Err(_) => {
            return Err(());
        },
    };
    assert(rd.rest() =~= args@.subrange(6, args@.len() as int));
    let heartbeat = match rd.read_short() {
        Ok(v) => v,
        Err(_) => {
            return Err(());
        },
    };
    assert(args@.subrange(2, args@.len() as int).subrange(0, 4) =~= args@.subrange(2, 6));
    assert(args@.subrange(6, args@.len() as int).subrange(0, 2) =~= args@.subrange(6, 8));
    let ch = if channel_max == 0 {
        DEFAULT_CHANNEL_MAX
    } else if channel_max < DEFAULT_CHANNEL_MAX {
        channel_max
    } else {
        DEFAULT_CHANNEL_MAX
    };
    let fm = if frame_max == 0 {
        DEFAULT_FRAME_MAX
    } else if frame_max < DEFAULT_FRAME_MAX {
        frame_max
    } else {
        DEFAULT_FRAME_MAX
    };
    Ok((ch, fm, heartbeat))
}

/// A tune answer that repeats the server's own proposal is accepted as is.
pub proof fn lemma_tune_echo(channel_max: u16, frame_max: u32, heartbeat: u16)
    requires
        0 < channel_max <= DEFAULT_CHANNEL_MAX,
        0 < frame_max <= DEFAULT_FRAME_MAX,
    ensures
        ({
            let b = be16(channel_max) + be32(frame_max) + be16(heartbeat);
            &&& b.len() == 8
            &&& negotiated(from_be16(b.subrange(0, 2)) as int, DEFAULT_CHANNEL_MAX as int)
                == channel_max
            &&& negotiated(from_be32(b.subrange(2, 6)) as int, DEFAULT_FRAME_MAX as int)
                == frame_max
            &&& from_be16(b.subrange(6, 8)) == heartbeat
        }),
{
    let b = be16(channel_max) + be32(frame_max) + be16(heartbeat);
    lemma_be16_roundtrip(channel_max);
    lemma_be32_roundtrip(frame_max);
    lemma_be16_roundtrip(heartbeat);
    assert(b.subrange(0, 2) =~= be16(channel_max));
    assert(b.subrange(2, 6) =~= be32(frame_max));
    assert(b.subrange(6, 8) =~= be16(heartbeat));
}

// ─── Open ─────────────────────────────────────────────────────────────

/// The arguments of `Connection.Open-Ok`: an empty known-hosts string.
pub fn build_connection_open_ok() -> (r: Vec<u8>)
    ensures
        r@ == seq![0u8],
{
    let mut buf: Vec<u8> = Vec::new();
    write_octet(&mut buf, 0);
    assert(buf@ =~= seq![0u8]);
    buf
}

/// Reads the virtual host named by `Connection.Open`; what follows it
/// (capabilities, insist) is deprecated and ignored.
pub fn parse_connection_open(args: &[u8]) -> (r: Result<String, ()>)
    ensures
        ({
            let n = args@[0] as int;
            if args@.len() >= 1 && args@.len() >= 1 + n && valid_utf8(args@.subrange(1, 1 + n)) {
                r matches Ok(s) && encode_utf8(s@) == args@.subrange(1, 1 + n)
            } else {
                r is Err
            }
        }),
{
    let mut rd = WireReader::new(args);
    assert(rd.rest() =~= args@);
    match rd.read_shortstr() {
        Ok(s) => Ok(s),
        Err(_) => Err(()),
    }
}

// ─── Close ────────────────────────────────────────────────────────────

/// The arguments of `Connection.Close`: reply code and text, and the class
/// and method that caused it.
pub fn build_connection_close(reply_code: u16, reply_text: &str, class_id: u16, method_id: u16) -> (r:
    Vec<u8>)
    requires
        reply_text.spec_bytes().len() <= 255,
    ensures
        r@ == be16(reply_code) + shortstr_bytes(reply_text.spec_bytes()) + be16(class_id) + be16(
            method_id,
        ),
{
    let mut buf: Vec<u8> = Vec::new();
    write_short(&mut buf, reply_code);
    let _ = write_shortstr(&mut buf, reply_text);
    write_short(&mut buf, class_id);
    write_short(&mut buf, method_id);
    assert(buf@ =~= be16(reply_code) + shortstr_bytes(reply_text.spec_bytes()) + be16(class_id)
        + be16(method_id));
    buf
}

/// The arguments of `Connection.Close-Ok`: none.
pub fn build_connection_close_ok() -> (r: Vec<u8>)
    ensures
        r@ == Seq::<u8>::empty(),
{
    Vec::new()
}

// ─── Start ────────────────────────────────────────────────────────────

/// The UTF-8 bytes of an ASCII string have one byte per character.
pub(crate) proof fn lemma_ascii_len(s: &str)
    requires
        is_ascii_chars(s@),
    ensures
        s.spec_bytes().len() == s@.len(),
{
    is_ascii_chars_encode_utf8(s@);
}

/// The capabilities the server announces.
pub open spec fn capabilities_view() -> Seq<(Seq<u8>, FieldValueView)> {
    seq![
        ("publisher_confirms".spec_bytes(), FieldValueView::Boolean(true)),
        ("consumer_cancel_notify".spec_bytes(), FieldValueView::Boolean(true)),
        ("basic.nack".spec_bytes(), FieldValueView::Boolean(true)),
        ("connection.blocked".spec_bytes(), FieldValueView::Boolean(false)),
    ]
}

/// The server properties sent with `Connection.Start`.
pub open spec fn server_properties_view() -> Seq<(Seq<u8>, FieldValueView)> {
    seq![
        ("product".spec_bytes(), FieldValueView::LongString("RocketMQ".spec_bytes())),
        ("version".spec_bytes(), FieldValueView::LongString("0.1.0".spec_bytes())),
        ("platform".spec_bytes(), FieldValueView::LongString("Rust/Tokio".spec_bytes())),
        ("capabilities".spec_bytes(), FieldValueView::Table(encode_entries(capabilities_view())->Ok_0)),
    ]
}

/// The arguments of `Connection.Start` as they go on the wire.
pub open spec fn connection_start_bytes() -> Seq<u8> {
    seq![0u8, 9u8] + encode_table(server_properties_view())->Ok_0 + longstr_bytes(
        "PLAIN AMQPLAIN".spec_bytes(),
    ) + longstr_bytes("en_US".spec_bytes())
}

proof fn lemma_capabilities_fit()
    ensures
        encode_entries(capabilities_view()) is Ok,
        encode_entries(capabilities_view())->Ok_0.len() < 1000,
{
    reveal_strlit("publisher_confirms");
    reveal_strlit("consumer_cancel_notify");
    reveal_strlit("basic.nack");
    reveal_strlit("connection.blocked");
    lemma_ascii_len("publisher_confirms");
    lemma_ascii_len("consumer_cancel_notify");
    lemma_ascii_len("basic.nack");
    lemma_ascii_len("connection.blocked");
    let c = capabilities_view();
    let c1 = c.drop_first();
    let c2 = c1.drop_first();
    let c3 = c2.drop_first();
    let c4 = c3.drop_first();
    assert(c4 =~= Seq::<(Seq<u8>, FieldValueView)>::empty());
    assert(encode_entries(c4) is Ok && encode_entries(c4)->Ok_0.len() == 0);
    assert(c3[0] == c[3]);
    assert(encode_entries(c3) is Ok && encode_entries(c3)->Ok_0.len() < 100);
    assert(c2[0] == c[2]);
    assert(encode_entries(c2) is Ok && encode_entries(c2)->Ok_0.len() < 200);
    assert(c1[0] == c[1]);
    assert(encode_entries(c1) is Ok && encode_entries(c1)->Ok_0.len() < 300);
}

proof fn lemma_start_literals()
    ensures
        "PLAIN AMQPLAIN".spec_bytes().len() == 14,
        "en_US".spec_bytes().len() == 5,
{
    reveal_strlit("PLAIN AMQPLAIN");
    reveal_strlit("en_US");
    lemma_ascii_len("PLAIN AMQPLAIN");
    lemma_ascii_len("en_US");
}

#[verifier::rlimit(40)]
proof fn lemma_properties_fit()
    ensures
        encode_table(server_properties_view()) is Ok,
        encode_entries(server_properties_view())->Ok_0.len() < 5000,
{
    lemma_capabilities_fit();
    reveal_strlit("product");
    reveal_strlit("version");
    reveal_strlit("platform");
    reveal_strlit("capabilities");
    reveal_strlit("RocketMQ");
    reveal_strlit("0.1.0");
    reveal_strlit("Rust/Tokio");
    lemma_ascii_len("product");
    lemma_ascii_len("version");
    lemma_ascii_len("platform");
    lemma_ascii_len("capabilities");
    lemma_ascii_len("RocketMQ");
    lemma_ascii_len("0.1.0");
    lemma_ascii_len("Rust/Tokio");
    let p = server_properties_view();
    let p1 = p.drop_first();
    let p2 = p1.drop_first();
    let p3 = p2.drop_first();
    let p4 = p3.drop_first();
    assert(p4 =~= Seq::<(Seq<u8>, FieldValueView)>::empty());
    assert(encode_entries(p4) is Ok && encode_entries(p4)->Ok_0.len() == 0);
    assert(p3[0] == p[3]);
    assert(encode_entries(p3) is Ok && encode_entries(p3)->Ok_0.len() < 2000);
    assert(p2[0] == p[2]);
    assert(encode_entries(p2) is Ok && encode_entries(p2)->Ok_0.len() < 3000);
    assert(p1[0] == p[1]);
    assert(encode_entries(p1) is Ok && encode_entries(p1)->Ok_0.len() < 4000);
    assert(encode_entries(p) is Ok && encode_entries(p)->Ok_0.len() < 5000);
}

/// The UTF-8 bytes of a string, copied.
fn str_bytes(s: &str) -> (r: Vec<u8>)
    ensures
        r@ == s.spec_bytes(),
{
    let b = s.as_bytes();
    let r = crate::amqp::types::copy_range(b, 0, b.len());
    assert(r@ =~= s.spec_bytes());
    r
}

/// The server's capabilities as a field table.
fn capabilities() -> (t: FieldTable)
    ensures
        table_view(t@) == capabilities_view(),
{
    let mut t: FieldTable = Vec::new();
    t.push(("publisher_confirms".to_owned(), FieldValue::Boolean(true)));
    t.push(("consumer_cancel_notify".to_owned(), FieldValue::Boolean(true)));
    t.push(("basic.nack".to_owned(), FieldValue::Boolean(true)));
    t.push(("connection.blocked".to_owned(), FieldValue::Boolean(false)));
    assert(table_view(t@) =~= capabilities_view());
    t
}

/// The arguments of `Connection.Start`: protocol version 0-9, the server
/// properties, the SASL mechanisms offered and the locales.
pub fn build_connection_start() -> (r: Vec<u8>)
    ensures
        encode_table(server_properties_view()) is Ok,
        r@ == connection_start_bytes(),
        r@.len() < 6000,
{
    proof {
        lemma_properties_fit();
        lemma_start_literals();
    }
    let mut buf: Vec<u8> = Vec::new();
    write_octet(&mut buf, 0);
    write_octet(&mut buf, 9);
    let caps = capabilities();
    let caps_bytes = match encode_field_entries(caps.as_slice()) {
        Ok(b) => b,
        Err(_) => {
            proof {
                lemma_capabilities_fit();
            }
            vstd::pervasive::unreached()
        },
    };
    let mut props: FieldTable = Vec::new();
    props.push(("product".to_owned(), FieldValue::LongString(str_bytes("RocketMQ"))));
    props.push(("version".to_owned(), FieldValue::LongString(str_bytes("0.1.0"))));
    props.push(("platform".to_owned(), FieldValue::LongString(str_bytes("Rust/Tokio"))));
    props.push(("capabilities".to_owned(), FieldValue::Table(caps_bytes)));
    assert(table_view(props@) =~= server_properties_view());
    match write_field_table(&mut buf, props.as_slice()) {
        Ok(()) => {},
        Err(_) => vstd::pervasive::unreached(),
    }
    let _ = write_longstr(&mut buf, "PLAIN AMQPLAIN".as_bytes());
    let _ = write_longstr(&mut buf, "en_US".as_bytes());
    assert(buf@ =~= connection_start_bytes());
    buf
}

// ─── Start-Ok ─────────────────────────────────────────────────────────

/// The index of the first `b` in `s` at or after `from`, or `s.len()`.
pub open spec fn index_from(s: Seq<u8>, b: u8, from: int) -> int
    decreases s.len() - from,
{
    if from < 0 || from >= s.len() {
        s.len() as int
    } else if s[from] == b {
        from
    } else {
        index_from(s, b, from + 1)
    }
}

/// The user and password of a SASL `PLAIN` response
/// `authzid NUL user NUL password`, when it has at least the two NULs.
pub open spec fn plain_credentials(resp: Seq<u8>) -> Option<(Seq<u8>, Seq<u8>)> {
    let i0 = index_from(resp, 0, 0);
    if i0 >= resp.len() {
        None
    } else {
        let i1 = index_from(resp, 0, i0 + 1);
        if i1 >= resp.len() {
            None
        } else {
            let i2 = index_from(resp, 0, i1 + 1);
            Some((resp.subrange(i0 + 1, i1), resp.subrange(i1 + 1, i2)))
        }
    }
}

/// The mechanism and response carried by `Connection.Start-Ok`, when its
/// client properties, mechanism, response and locale all read.
pub open spec fn start_ok_fields(args: Seq<u8>) -> Option<(Seq<u8>, Seq<u8>)> {
    match parse_table(args) {
        Err(_) => None,
        Ok((_, k1)) => {
            let n = args[k1] as int;
            if args.len() < k1 + 1 || args.len() < k1 + 1 + n || !valid_utf8(
                args.subrange(k1 + 1, k1 + 1 + n),
            ) {
                None
            } else {
                let mech = args.subrange(k1 + 1, k1 + 1 + n);
                let k2 = k1 + 1 + n;
                let m = from_be32(args.subrange(k2, k2 + 4)) as int;
                if args.len() < k2 + 4 || args.len() < k2 + 4 + m {
                    None
                } else {
                    let resp = args.subrange(k2 + 4, k2 + 4 + m);
                    let k3 = k2 + 4 + m;
                    let l = args[k3] as int;
                    if args.len() < k3 + 1 || args.len() < k3 + 1 + l || !valid_utf8(
                        args.subrange(k3 + 1, k3 + 1 + l),
                    ) {
                        None
                    } else {
                        Some((mech, resp))
                    }
                }
            }
        },
    }
}

/// The bytes a credential string stands for: the long string found, or
/// nothing when the entry is missing or of another type.
pub open spec fn credential_bytes(v: Option<FieldValueView>) -> Seq<u8> {
    match v {
        Some(FieldValueView::LongString(s)) => s,
        _ => Seq::empty(),
    }
}

/// Whether a start-ok answer yields credentials, and which bytes they are.
pub open spec fn start_ok_credentials(args: Seq<u8>) -> Option<(Seq<u8>, Seq<u8>)> {
    match start_ok_fields(args) {
        None => None,
        Some((mech, resp)) => if mech == "PLAIN".spec_bytes() {
            plain_credentials(resp)
        } else if mech == "AMQPLAIN".spec_bytes() {
            match parse_table(resp) {
                Ok((es, _)) => Some(
                    (
                        credential_bytes(table_lookup(es, "LOGIN".spec_bytes())),
                        credential_bytes(table_lookup(es, "PASSWORD".spec_bytes())),
                    ),
                ),
                Err(_) => None,
            }
        } else {
            None
        },
    }
}

/// Finds the first `b` in `s` at or after `from`.
fn find_byte(s: &[u8], b: u8, from: usize) -> (r: usize)
    requires
        from <= s@.len(),
    ensures
        r == index_from(s@, b, from as int),
        from <= r <= s@.len(),
{
    let mut i = from;
    while i < s.len()
        invariant
            from <= i <= s@.len(),
            index_from(s@, b, from as int) == index_from(s@, b, i as int),
        decreases s@.len() - i,
    {
        if s[i] == b {
            return i;
        }
        i = i + 1;
    }
    i
}

/// A string holding the given bytes, with what is not UTF-8 replaced.
fn credential_string(v: Option<&FieldValue>) -> (r: String)
    ensures
        r@ == utf8_lossy(credential_bytes(
            match v {
                Some(x) => Some(x@),
                None => None,
            },
        )),
        valid_utf8(credential_bytes(
            match v {
                Some(x) => Some(x@),
                None => None,
            },
        )) ==> encode_utf8(r@) == credential_bytes(
            match v {
                Some(x) => Some(x@),
                None => None,
            },
        ),
{
    match v {
        Some(FieldValue::LongString(s)) => lossy_string(s.as_slice()),
        _ => {
            let empty: Vec<u8> = Vec::new();
            assert(empty@ =~= Seq::<u8>::empty());
            lossy_string(empty.as_slice())
        },
    }
}

/// Extracts the user name and password from `Connection.Start-Ok`, for
/// the `PLAIN` and `AMQPLAIN` mechanisms; the client properties and the
/// locale are read and set aside.
pub fn parse_start_ok_credentials(args: &[u8]) -> (r: Result<(String, String), ()>)
    ensures
        r is Ok <==> start_ok_credentials(args@) is Some,
        r matches Ok((user, pass)) ==> ({
            let (u, p) = start_ok_credentials(args@)->Some_0;
            &&& user@ == utf8_lossy(u)
            &&& pass@ == utf8_lossy(p)
            &&& valid_utf8(u) ==> encode_utf8(user@) == u
            &&& valid_utf8(p) ==> encode_utf8(pass@) == p
        }),
{
    let mut rd = WireReader::new(args);
    assert(rd.rest() =~= args@);
    let _props = match read_field_table(&mut rd) {
        Ok(t) => t,
        Err(_) => {
            return Err(());
        },
    };
    let ghost k1 = rd.pos as int;
    assert(rd.rest() =~= args@.subrange(k1, args@.len() as int));
    assert(k1 < args@.len() ==> rd.rest()[0] == args@[k1]);
    assert(k1 + 1 + args@[k1] as int <= args@.len() ==> rd.rest().subrange(1, 1 + args@[k1] as int) =~= args@.subrange(k1 + 1, k1 + 1 + args@[k1] as int));
    let mechanism = match rd.read_shortstr() {
        Ok(m) => m,
        Err(_) => {
            return Err(());
        },
    };
    let ghost k2 = rd.pos as int;
    assert(rd.rest() =~= args@.subrange(k2, args@.len() as int));
    assert(k2 + 4 <= args@.len() ==> rd.rest().subrange(0, 4) =~= args@.subrange(k2, k2 + 4));
    let response = match rd.read_longstr() {
        Ok(v) => v,
        Err(_) => {
            return Err(());
        },
    };
    let ghost k3 = rd.pos as int;
    assert(rd.rest() =~= args@.subrange(k3, args@.len() as int));
    assert(k3 < args@.len() ==> rd.rest()[0] == args@[k3]);
    assert(k3 + 1 + args@[k3] as int <= args@.len() ==> rd.rest().subrange(1, 1 + args@[k3] as int) =~= args@.subrange(k3 + 1, k3 + 1 + args@[k3] as int));
    match rd.read_shortstr() {
        Ok(_) => {},
        Err(_) => {
            return Err(());
        },
    }
    proof {
        assert(args@.subrange(k1, args@.len() as int).subrange(1, 1 + args@[k1] as int) =~= args@.subrange(k1 + 1, k1 + 1 + args@[k1] as int));
        assert(args@.subrange(k2, args@.len() as int).subrange(0, 4) =~= args@.subrange(k2, k2 + 4));
        assert(start_ok_fields(args@) == Some((encode_utf8(mechanism@), response@)));
        encode_utf8_decode_utf8(mechanism@);
        encode_utf8_decode_utf8("PLAIN"@);
        encode_utf8_decode_utf8("AMQPLAIN"@);
    }
    if crate::routing::topic::str_eq(mechanism.as_str(), "PLAIN") {
        let resp = response.as_slice();
        let i0 = find_byte(resp, 0, 0);
        if i0 >= resp.len() {
            return Err(());
        }
        let i1 = find_byte(resp, 0, i0 + 1);
        if i1 >= resp.len() {
            return Err(());
        }
        let i2 = find_byte(resp, 0, i1 + 1);
        let user_bytes = crate::amqp::types::copy_range(resp, i0 + 1, i1);
        let pass_bytes = crate::amqp::types::copy_range(resp, i1 + 1, i2);
        let user = lossy_string(user_bytes.as_slice());
        let pass = lossy_string(pass_bytes.as_slice());
        return Ok((user, pass));
    } else if crate::routing::topic::str_eq(mechanism.as_str(), "AMQPLAIN") {
        let mut tr = WireReader::new(response.as_slice());
        assert(tr.rest() =~= response@);
        match read_field_table(&mut tr) {
            Ok(table) => {
                let login = credential_string(table_get(table.as_slice(), "LOGIN"));
                let password = credential_string(table_get(table.as_slice(), "PASSWORD"));
                return Ok((login, password));
            },
            Err(_) => {
                return Err(());
            },
        }
    }
    Err(())
}

} // verus!
