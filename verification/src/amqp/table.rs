//! AMQP field tables: the `(name, typed value)` lists that carry server
//! properties, client properties and SASL `AMQPLAIN` credentials.
//!
//! A table is a `u32` byte count followed by its entries; each entry is a
//! short-string name, a one-byte type tag and the value. Nested tables are
//! kept as their encoded entries and can be read again on demand.

use vstd::prelude::*;
use vstd::utf8::*;
use vstd::string::*;
use crate::amqp::types::{
    be32, lemma_be32_roundtrip, from_be32, longstr_bytes, push_all, shortstr_bytes, write_longstr, write_shortstr,
    WireError, WireReader,
};

verus! {

/// Field type tag `B`.
pub const TAG_SHORT_SHORT_UINT: u8 = 66;
/// Field type tag `D`.
pub const TAG_DECIMAL: u8 = 68;
/// Field type tag `F`.
pub const TAG_TABLE: u8 = 70;
/// Field type tag `I`.
pub const TAG_LONG_INT: u8 = 73;
/// Field type tag `L`.
pub const TAG_LONG_LONG_INT: u8 = 76;
/// Field type tag `S`.
pub const TAG_LONG_STRING: u8 = 83;
/// Field type tag `T`.
pub const TAG_TIMESTAMP: u8 = 84;
/// Field type tag `U`.
pub const TAG_SHORT_INT: u8 = 85;
/// Field type tag `V`.
pub const TAG_VOID: u8 = 86;
/// Field type tag `b`.
pub const TAG_SHORT_SHORT_INT: u8 = 98;
/// Field type tag `d`.
pub const TAG_DOUBLE: u8 = 100;
/// Field type tag `f`.
pub const TAG_FLOAT: u8 = 102;
/// Field type tag `i`.
pub const TAG_LONG_UINT: u8 = 105;
/// Field type tag `l`.
pub const TAG_LONG_LONG_UINT: u8 = 108;
/// Field type tag `s`.
pub const TAG_SHORT: u8 = 115;
/// Field type tag `t`.
pub const TAG_BOOLEAN: u8 = 116;
/// Field type tag `u`.
pub const TAG_SHORT_UINT: u8 = 117;

/// Field type tag `x`: a byte array with a `u32` length.
pub const TAG_BYTES: u8 = 120;
/// Field type tag `A`: an array with a `u32` byte count.
pub const TAG_ARRAY: u8 = 65;

/// A field value as it stands on the wire.
#[derive(Debug, Clone)]
pub enum FieldValue {
    /// Tag `t`: one octet, non-zero for true.
    Boolean(bool),
    /// Tag `S`: a long string.
    LongString(Vec<u8>),
    /// Tag `F`: a nested table, held as its encoded entries.
    Table(Vec<u8>),
    /// Any other field type: its tag and the raw bytes of its value.
    Other(u8, Vec<u8>),
}

/// The mathematical model of a [`FieldValue`].
pub enum FieldValueView {
    Boolean(bool),
    LongString(Seq<u8>),
    Table(Seq<u8>),
    Other(u8, Seq<u8>),
}

impl View for FieldValue {
    type V = FieldValueView;

    open spec fn view(&self) -> FieldValueView {
        match self {
            FieldValue::Boolean(b) => FieldValueView::Boolean(*b),
            FieldValue::LongString(s) => FieldValueView::LongString(s@),
            FieldValue::Table(c) => FieldValueView::Table(c@),
            FieldValue::Other(t, raw) => FieldValueView::Other(*t, raw@),
        }
    }
}

/// A field table: its entries in wire order.
pub type FieldTable = Vec<(String, FieldValue)>;

/// An entry seen as its name's bytes and its value's model.
pub open spec fn entry_view(e: (String, FieldValue)) -> (Seq<u8>, FieldValueView) {
    (encode_utf8(e.0@), e.1@)
}

/// A table seen as its entries' models.
pub open spec fn table_view(t: Seq<(String, FieldValue)>) -> Seq<(Seq<u8>, FieldValueView)> {
    t.map_values(|e: (String, FieldValue)| entry_view(e))
}

// ─── Encoding ─────────────────────────────────────────────────────────

/// The width of a field type whose values have a fixed size.
pub open spec fn fixed_width(tag: u8) -> Option<nat> {
    if tag == TAG_SHORT_SHORT_INT || tag == TAG_SHORT_SHORT_UINT {
        Some(1)
    } else if tag == TAG_SHORT_INT || tag == TAG_SHORT_UINT || tag == TAG_SHORT {
        Some(2)
    } else if tag == TAG_LONG_INT || tag == TAG_LONG_UINT || tag == TAG_FLOAT {
        Some(4)
    } else if tag == TAG_DECIMAL {
        Some(5)
    } else if tag == TAG_LONG_LONG_INT || tag == TAG_LONG_LONG_UINT || tag == TAG_DOUBLE || tag == TAG_TIMESTAMP {
        Some(8)
    } else if tag == TAG_VOID {
        Some(0)
    } else {
        None
    }
}

/// The bytes of one value, tag included, or why it cannot be written.
pub open spec fn encode_value(v: FieldValueView) -> Result<Seq<u8>, WireError> {
    match v {
        FieldValueView::Boolean(b) => Ok(seq![TAG_BOOLEAN, if b { 1u8 } else { 0u8 }]),
        FieldValueView::LongString(s) => if s.len() <= u32::MAX {
            Ok(seq![TAG_LONG_STRING] + longstr_bytes(s))
        } else {
            Err(WireError::LongStrTooLong)
        },
        FieldValueView::Table(c) => if c.len() <= u32::MAX {
            Ok(seq![TAG_TABLE] + longstr_bytes(c))
        } else {
            Err(WireError::LongStrTooLong)
        },
        FieldValueView::Other(tag, raw) => Ok(seq![tag] + raw),
    }
}

/// The bytes of one entry, or why it cannot be written.
pub open spec fn encode_entry(e: (Seq<u8>, FieldValueView)) -> Result<Seq<u8>, WireError> {
    if e.0.len() > 255 {
        Err(WireError::ShortStrTooLong)
    } else {
        match encode_value(e.1) {
            Ok(b) => Ok(shortstr_bytes(e.0) + b),
            Err(err) => Err(err),
        }
    }
}

/// The bytes of a run of entries, or the error of the first entry that
/// cannot be written.
pub open spec fn encode_entries(t: Seq<(Seq<u8>, FieldValueView)>) -> Result<Seq<u8>, WireError>
    decreases t.len(),
{
    if t.len() == 0 {
        Ok(Seq::empty())
    } else {
        match encode_entry(t[0]) {
            Err(err) => Err(err),
            Ok(b) => match encode_entries(t.drop_first()) {
                Ok(rest) => Ok(b + rest),
                Err(err) => Err(err),
            },
        }
    }
}

/// Prefixes the bytes of a successful encoding.
pub open spec fn prepend(pre: Seq<u8>, r: Result<Seq<u8>, WireError>) -> Result<Seq<u8>, WireError> {
    match r {
        Ok(b) => Ok(pre + b),
        Err(err) => Err(err),
    }
}

/// The bytes of a whole table: its byte count, then its entries.
pub open spec fn encode_table(t: Seq<(Seq<u8>, FieldValueView)>) -> Result<Seq<u8>, WireError> {
    match encode_entries(t) {
        Ok(c) => if c.len() <= u32::MAX {
            Ok(longstr_bytes(c))
        } else {
            Err(WireError::LongStrTooLong)
        },
        Err(err) => Err(err),
    }
}

/// Writes one value, tag first.
pub fn write_field_value(buf: &mut Vec<u8>, v: &FieldValue) -> (r: Result<(), WireError>)
    ensures
        match encode_value(v@) {
            Ok(b) => r is Ok && final(buf)@ == old(buf)@ + b,
            Err(e) => r == Err::<(), WireError>(e) && final(buf)@ == old(buf)@,
        },
{
    match v {
        FieldValue::Boolean(b) => {
            buf.push(TAG_BOOLEAN);
            buf.push(if *b { 1u8 } else { 0u8 });
            assert(buf@ =~= old(buf)@ + encode_value(v@)->Ok_0);
            Ok(())
        },
        FieldValue::LongString(s) => {
            if s.len() > 0xFFFF_FFFF {
                return Err(WireError::LongStrTooLong);
            }
            buf.push(TAG_LONG_STRING);
            let _ = write_longstr(buf, s.as_slice());
            assert(buf@ =~= old(buf)@ + encode_value(v@)->Ok_0);
            Ok(())
        },
        FieldValue::Table(c) => {
            if c.len() > 0xFFFF_FFFF {
                return Err(WireError::LongStrTooLong);
            }
            buf.push(TAG_TABLE);
            let _ = write_longstr(buf, c.as_slice());
            assert(buf@ =~= old(buf)@ + encode_value(v@)->Ok_0);
            Ok(())
        },
        FieldValue::Other(tag, raw) => {
            buf.push(*tag);
            push_all(buf, raw.as_slice());
            assert(buf@ =~= old(buf)@ + encode_value(v@)->Ok_0);
            Ok(())
        },
    }
}

/// Encodes the entries of a table, without the table's byte count.
pub fn encode_field_entries(t: &[(String, FieldValue)]) -> (r: Result<Vec<u8>, WireError>)
    ensures
        match encode_entries(table_view(t@)) {
            Ok(b) => r matches Ok(v) && v@ == b,
            Err(e) => r == Err::<Vec<u8>, WireError>(e),
        },
{
    let mut out: Vec<u8> = Vec::new();
    let mut i: usize = 0;
    proof {
        assert(table_view(t@).skip(0) =~= table_view(t@));
        match encode_entries(table_view(t@)) {
            Ok(b) => assert(out@ + b =~= b),
            Err(_) => {},
        }
    }
    while i < t.len()
        invariant
            i <= t@.len(),
            encode_entries(table_view(t@)) == prepend(out@, encode_entries(table_view(t@).skip(i as int))),
        decreases t@.len() - i,
    {
        let ghost tv = table_view(t@);
        assert(tv.skip(i as int).drop_first() =~= tv.skip(i + 1));
        assert(tv.skip(i as int)[0] == entry_view(t@[i as int]));
        let ghost before = out@;
        let (name, value) = &t[i];
        match write_shortstr(&mut out, name.as_str()) {
            Ok(()) => {},
            Err(e) => {
                return Err(e);
            },
        }
        match write_field_value(&mut out, value) {
            Ok(()) => {},
            Err(e) => {
                return Err(e);
            },
        }
        proof {
            let eb = encode_entry(entry_view(t@[i as int]))->Ok_0;
            assert(out@ =~= before + eb);
            match encode_entries(tv.skip(i + 1)) {
                Ok(rest) => {
                    assert(before + (eb + rest) =~= out@ + rest);
                },
                Err(_) => {},
            }
        }
        i = i + 1;
    }
    assert(table_view(t@).skip(i as int) =~= Seq::<(Seq<u8>, FieldValueView)>::empty());
    assert(out@ + Seq::<u8>::empty() =~= out@);
    Ok(out)
}

/// Writes a whole table: its byte count, then its entries.
pub fn write_field_table(buf: &mut Vec<u8>, t: &[(String, FieldValue)]) -> (r: Result<(), WireError>)
    ensures
        match encode_table(table_view(t@)) {
            Ok(b) => r is Ok && final(buf)@ == old(buf)@ + b,
            Err(e) => r == Err::<(), WireError>(e) && final(buf)@ == old(buf)@,
        },
{
    let content = match encode_field_entries(t) {
        Ok(c) => c,
        Err(e) => {
            return Err(e);
        },
    };
    write_longstr(buf, content.as_slice())
}

// ─── Decoding ─────────────────────────────────────────────────────────

/// A value read after its tag from the front of `v`, and the number of
/// bytes it takes.
pub open spec fn parse_value(tag: u8, v: Seq<u8>) -> Result<(FieldValueView, int), WireError> {
    if tag == TAG_BOOLEAN {
        if v.len() < 1 {
            Err(WireError::UnexpectedEof)
        } else {
            Ok((FieldValueView::Boolean(v[0] != 0), 1))
        }
    } else if tag == TAG_LONG_STRING || tag == TAG_TABLE || tag == TAG_BYTES || tag == TAG_ARRAY {
        if v.len() < 4 {
            Err(WireError::UnexpectedEof)
        } else {
            let n = from_be32(v.subrange(0, 4)) as int;
            if v.len() < 4 + n {
                Err(WireError::UnexpectedEof)
            } else if tag == TAG_LONG_STRING {
                Ok((FieldValueView::LongString(v.subrange(4, 4 + n)), 4 + n))
            } else if tag == TAG_TABLE {
                Ok((FieldValueView::Table(v.subrange(4, 4 + n)), 4 + n))
            } else {
                Ok((FieldValueView::Other(tag, v.subrange(0, 4 + n)), 4 + n))
            }
        }
    } else {
        match fixed_width(tag) {
            Some(w) => if v.len() < w {
                Err(WireError::UnexpectedEof)
            } else {
                Ok((FieldValueView::Other(tag, v.subrange(0, w as int)), w as int))
            },
            None => Err(WireError::UnknownFieldType(tag)),
        }
    }
}

/// One entry read from the front of `s`, and the number of bytes it takes.
pub open spec fn parse_entry(s: Seq<u8>) -> Result<((Seq<u8>, FieldValueView), int), WireError> {
    if s.len() < 1 {
        Err(WireError::UnexpectedEof)
    } else {
        let n = s[0] as int;
        if s.len() < 1 + n {
            Err(WireError::UnexpectedEof)
        } else if !valid_utf8(s.subrange(1, 1 + n)) {
            Err(WireError::InvalidUtf8)
        } else if s.len() < 2 + n {
            Err(WireError::UnexpectedEof)
        } else {
            match parse_value(s[1 + n], s.subrange(2 + n, s.len() as int)) {
                Ok((v, k)) => Ok(((s.subrange(1, 1 + n), v), 2 + n + k)),
                Err(e) => Err(e),
            }
        }
    }
}

/// The entries that fill `s`, read one after the other.
pub open spec fn parse_entries(s: Seq<u8>) -> Result<Seq<(Seq<u8>, FieldValueView)>, WireError>
    decreases s.len(),
{
    if s.len() == 0 {
        Ok(Seq::empty())
    } else {
        match parse_entry(s) {
            Err(e) => Err(e),
            Ok((e, k)) => if 0 < k <= s.len() {
                match parse_entries(s.subrange(k, s.len() as int)) {
                    Ok(rest) => Ok(seq![e] + rest),
                    Err(err) => Err(err),
                }
            } else {
                Err(WireError::UnexpectedEof)
            },
        }
    }
}

/// Prefixes the entries of a successful read.
pub open spec fn prepend_entries(
    pre: Seq<(Seq<u8>, FieldValueView)>,
    r: Result<Seq<(Seq<u8>, FieldValueView)>, WireError>,
) -> Result<Seq<(Seq<u8>, FieldValueView)>, WireError> {
    match r {
        Ok(es) => Ok(pre + es),
        Err(err) => Err(err),
    }
}

/// A whole table read from the front of `s`: its entries and the number of
/// bytes it takes, byte count included.
pub open spec fn parse_table(s: Seq<u8>) -> Result<(Seq<(Seq<u8>, FieldValueView)>, int), WireError> {
    if s.len() < 4 {
        Err(WireError::UnexpectedEof)
    } else {
        let n = from_be32(s.subrange(0, 4)) as int;
        if s.len() < 4 + n {
            Err(WireError::UnexpectedEof)
        } else {
            match parse_entries(s.subrange(4, 4 + n)) {
                Ok(es) => Ok((es, 4 + n)),
                Err(e) => Err(e),
            }
        }
    }
}

/// Reads one value of type `tag`.
fn read_field_value(r: &mut WireReader, tag: u8) -> (res: Result<FieldValue, WireError>)
    requires
        old(r).pos <= old(r).data@.len(),
    ensures
        final(r).data == old(r).data,
        final(r).pos <= final(r).data@.len(),
        match parse_value(tag, old(r).rest()) {
            Ok((v, k)) => (res matches Ok(x) && x@ == v) && final(r).pos == old(r).pos + k,
            Err(e) => res == Err::<FieldValue, WireError>(e),
        },
{
    let ghost rest = r.rest();
    if tag == TAG_BOOLEAN {
        let b = r.read_octet()?;
        return Ok(FieldValue::Boolean(b != 0));
    }
    if tag == TAG_LONG_STRING {
        let s = r.read_longstr()?;
        return Ok(FieldValue::LongString(s));
    }
    if tag == TAG_TABLE {
        let c = r.read_longstr()?;
        return Ok(FieldValue::Table(c));
    }
    let w: usize = if tag == TAG_SHORT_SHORT_INT || tag == TAG_SHORT_SHORT_UINT {
        1
    } else if tag == TAG_SHORT_INT || tag == TAG_SHORT_UINT || tag == TAG_SHORT {
        2
    } else if tag == TAG_LONG_INT || tag == TAG_LONG_UINT || tag == TAG_FLOAT {
        4
    } else if tag == TAG_DECIMAL {
        5
    } else if tag == TAG_LONG_LONG_INT || tag == TAG_LONG_LONG_UINT || tag == TAG_DOUBLE
        || tag == TAG_TIMESTAMP {
        8
    } else if tag == TAG_VOID {
        0
    } else if tag == TAG_BYTES || tag == TAG_ARRAY {
        if r.remaining() < 4 {
            return Err(WireError::UnexpectedEof);
        }
        let n = crate::amqp::types::get_u32(r.data, r.pos) as usize;
        assert(r.data@.subrange(r.pos as int, r.pos + 4) =~= rest.subrange(0, 4));
        if r.remaining() - 4 < n {
            return Err(WireError::UnexpectedEof);
        }
        4 + n
    } else {
        return Err(WireError::UnknownFieldType(tag));
    };
    let raw = r.read_bytes(w)?;
    Ok(FieldValue::Other(tag, raw))
}

/// Reads one entry: name, tag and value.
fn read_field_entry(r: &mut WireReader) -> (res: Result<(String, FieldValue), WireError>)
    requires
        old(r).pos <= old(r).data@.len(),
    ensures
        final(r).data == old(r).data,
        final(r).pos <= final(r).data@.len(),
        match parse_entry(old(r).rest()) {
            Ok((e, k)) => (res matches Ok(x) && entry_view(x) == e) && final(r).pos == old(r).pos
                + k,
            Err(e) => res == Err::<(String, FieldValue), WireError>(e),
        },
{
    let ghost rest = r.rest();
    let name = r.read_shortstr()?;
    let ghost mid = r.rest();
    assert(mid =~= rest.subrange(1 + rest[0] as int, rest.len() as int));
    let tag = match r.read_octet() {
        Ok(t) => t,
        Err(e) => {
            return Err(e);
        },
    };
    assert(r.rest() =~= rest.subrange(2 + rest[0] as int, rest.len() as int));
    let value = read_field_value(r, tag)?;
    Ok((name, value))
}

/// Reads the entries that fill `content`.
pub fn parse_field_entries(content: &[u8]) -> (r: Result<FieldTable, WireError>)
    ensures
        match parse_entries(content@) {
            Ok(es) => r matches Ok(t) && table_view(t@) == es,
            Err(e) => r == Err::<FieldTable, WireError>(e),
        },
{
    let mut rd = WireReader::new(content);
    let mut out: FieldTable = Vec::new();
    proof {
        assert(rd.rest() =~= content@);
        assert(table_view(out@) =~= Seq::<(Seq<u8>, FieldValueView)>::empty());
        match parse_entries(content@) {
            Ok(es) => assert(table_view(out@) + es =~= es),
            Err(_) => {},
        }
    }
    while rd.remaining() > 0
        invariant
            rd.data@ == content@,
            rd.pos <= rd.data@.len(),
            parse_entries(content@) == prepend_entries(table_view(out@), parse_entries(rd.rest())),
        decreases rd.data@.len() - rd.pos,
    {
        let ghost rest = rd.rest();
        let ghost before = table_view(out@);
        let e = read_field_entry(&mut rd)?;
        proof {
            let k = parse_entry(rest)->Ok_0.1;
            assert(rd.rest() =~= rest.subrange(k, rest.len() as int));
        }
        out.push(e);
        proof {
            let pe = parse_entry(rest)->Ok_0.0;
            assert(table_view(out@) =~= before + seq![pe]);
            match parse_entries(rd.rest()) {
                Ok(es) => assert(before + (seq![pe] + es) =~= table_view(out@) + es),
                Err(_) => {},
            }
        }
    }
    proof {
        assert(table_view(out@) + Seq::<(Seq<u8>, FieldValueView)>::empty() =~= table_view(out@));
    }
    Ok(out)
}

/// Reads a whole table: its byte count, then its entries.
pub fn read_field_table(r: &mut WireReader) -> (res: Result<FieldTable, WireError>)
    requires
        old(r).pos <= old(r).data@.len(),
    ensures
        final(r).data == old(r).data,
        final(r).pos <= final(r).data@.len(),
        match parse_table(old(r).rest()) {
            Ok((es, k)) => (res matches Ok(t) && table_view(t@) == es) && final(r).pos == old(
                r,
            ).pos + k,
            Err(e) => res == Err::<FieldTable, WireError>(e),
        },
{
    let content = r.read_longstr()?;
    parse_field_entries(content.as_slice())
}

/// The value of the last entry named `key`: as in a map filled in wire
/// order, a later entry overrides an earlier one.
pub open spec fn table_lookup(es: Seq<(Seq<u8>, FieldValueView)>, key: Seq<u8>) -> Option<
    FieldValueView,
>
    decreases es.len(),
{
    if es.len() == 0 {
        None
    } else if es.last().0 == key {
        Some(es.last().1)
    } else {
        table_lookup(es.drop_last(), key)
    }
}

/// Looks up `key` in a table read from the wire.
pub fn table_get<'a>(t: &'a [(String, FieldValue)], key: &str) -> (r: Option<&'a FieldValue>)
    ensures
        match table_lookup(table_view(t@), key.spec_bytes()) {
            Some(v) => r matches Some(x) && x@ == v,
            None => r is None,
        },
{
    let mut i: usize = t.len();
    assert(t@.subrange(0, i as int) =~= t@);
    while i > 0
        invariant
            i <= t@.len(),
            table_lookup(table_view(t@), key.spec_bytes()) == table_lookup(
                table_view(t@.subrange(0, i as int)),
                key.spec_bytes(),
            ),
        decreases i,
    {
        let ghost pre = table_view(t@.subrange(0, i as int));
        assert(pre.drop_last() =~= table_view(t@.subrange(0, i - 1)));
        assert(pre.last() == entry_view(t@[i - 1]));
        let same = crate::routing::topic::str_eq(t[i - 1].0.as_str(), key);
        proof {
            encode_utf8_decode_utf8(t@[i - 1].0@);
            encode_utf8_decode_utf8(key@);
        }
        if same {
            return Some(&t[i - 1].1);
        }
        i = i - 1;
    }
    assert(table_view(t@.subrange(0, 0)) =~= Seq::<(Seq<u8>, FieldValueView)>::empty());
    None
}

// ─── Read after write ─────────────────────────────────────────────────

/// A value that reads back as itself once written: long strings and
/// nested tables that fit a `u32` length, and raw values whose bytes have
/// the size their tag prescribes.
pub open spec fn value_well_formed(v: FieldValueView) -> bool {
    match v {
        FieldValueView::Boolean(_) => true,
        FieldValueView::LongString(s) => s.len() <= u32::MAX,
        FieldValueView::Table(c) => c.len() <= u32::MAX,
        FieldValueView::Other(tag, raw) => fixed_width(tag) == Some(raw.len()) || ((tag
            == TAG_BYTES || tag == TAG_ARRAY) && raw.len() >= 4 && from_be32(raw.subrange(0, 4))
            + 4 == raw.len()),
    }
}

/// An entry that reads back as itself once written.
pub open spec fn entry_well_formed(e: (Seq<u8>, FieldValueView)) -> bool {
    e.0.len() <= 255 && valid_utf8(e.0) && value_well_formed(e.1)
}

proof fn lemma_value_roundtrip(v: FieldValueView, post: Seq<u8>)
    requires
        value_well_formed(v),
    ensures
        encode_value(v) is Ok,
        encode_value(v)->Ok_0.len() >= 1,
        parse_value(encode_value(v)->Ok_0[0], encode_value(v)->Ok_0.drop_first() + post) == Ok::<
            (FieldValueView, int),
            WireError,
        >((v, encode_value(v)->Ok_0.len() - 1)),
{
    let b = encode_value(v)->Ok_0;
    let x = b.drop_first() + post;
    match v {
        FieldValueView::Boolean(bv) => {},
        FieldValueView::LongString(sv) => {
            lemma_be32_roundtrip(sv.len() as u32);
            assert(x.subrange(0, 4) =~= be32(sv.len() as u32));
            assert(x.subrange(4, 4 + sv.len() as int) =~= sv);
        },
        FieldValueView::Table(c) => {
            lemma_be32_roundtrip(c.len() as u32);
            assert(x.subrange(0, 4) =~= be32(c.len() as u32));
            assert(x.subrange(4, 4 + c.len() as int) =~= c);
        },
        FieldValueView::Other(tag, raw) => {
            assert(x.subrange(0, raw.len() as int) =~= raw);
            if !(fixed_width(tag) == Some(raw.len())) {
                assert(x.subrange(0, 4) =~= raw.subrange(0, 4));
            }
        },
    }
}

proof fn lemma_entry_roundtrip(e: (Seq<u8>, FieldValueView), post: Seq<u8>)
    requires
        entry_well_formed(e),
    ensures
        encode_entry(e) is Ok,
        parse_entry(encode_entry(e)->Ok_0 + post) == Ok::<
            ((Seq<u8>, FieldValueView), int),
            WireError,
        >((e, encode_entry(e)->Ok_0.len() as int)),
{
    let vb = encode_value(e.1)->Ok_0;
    lemma_value_roundtrip(e.1, post);
    let s = encode_entry(e)->Ok_0 + post;
    let n = e.0.len() as int;
    assert(s[0] == n);
    assert(s.subrange(1, 1 + n) =~= e.0);
    assert(s[1 + n] == vb[0]);
    assert(s.subrange(2 + n, s.len() as int) =~= vb.drop_first() + post);
}

proof fn lemma_entries_roundtrip(t: Seq<(Seq<u8>, FieldValueView)>)
    requires
        forall|i: int| 0 <= i < t.len() ==> entry_well_formed(#[trigger] t[i]),
    ensures
        encode_entries(t) is Ok,
        parse_entries(encode_entries(t)->Ok_0) == Ok::<
            Seq<(Seq<u8>, FieldValueView)>,
            WireError,
        >(t),
    decreases t.len(),
{
    if t.len() > 0 {
        let rest = t.drop_first();
        assert(entry_well_formed(t[0]));
        assert forall|i: int| 0 <= i < rest.len() implies entry_well_formed(#[trigger] rest[i]) by {
            assert(rest[i] == t[i + 1]);
        }
        lemma_entries_roundtrip(rest);
        let eb = encode_entry(t[0])->Ok_0;
        let rb = encode_entries(rest)->Ok_0;
        lemma_entry_roundtrip(t[0], rb);
        let s = eb + rb;
        assert(s.subrange(eb.len() as int, s.len() as int) =~= rb);
        assert(seq![t[0]] + rest =~= t);
    } else {
        assert(encode_entries(t)->Ok_0 =~= Seq::<u8>::empty());
        assert(t =~= Seq::<(Seq<u8>, FieldValueView)>::empty());
    }
}

/// A table written with [`write_field_table`] reads back, with
/// [`read_field_table`], as the same entries, whatever bytes follow it.
pub proof fn lemma_table_roundtrip(t: Seq<(Seq<u8>, FieldValueView)>, post: Seq<u8>)
    requires
        forall|i: int| 0 <= i < t.len() ==> entry_well_formed(#[trigger] t[i]),
        encode_table(t) is Ok,
    ensures
        parse_table(encode_table(t)->Ok_0 + post) == Ok::<
            (Seq<(Seq<u8>, FieldValueView)>, int),
            WireError,
        >((t, encode_table(t)->Ok_0.len() as int)),
{
    lemma_entries_roundtrip(t);
    let c = encode_entries(t)->Ok_0;
    let s = encode_table(t)->Ok_0 + post;
    lemma_be32_roundtrip(c.len() as u32);
    assert(s.subrange(0, 4) =~= be32(c.len() as u32));
    assert(s.subrange(4, 4 + c.len() as int) =~= c);
}

} // verus!
