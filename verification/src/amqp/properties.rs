//! Basic-class content properties: the fourteen optional fields of a
//! content header, announced by a 16-bit flag word (bit 15 first) and
//! written in that order.

use vstd::prelude::*;
use vstd::utf8::*;
use vstd::string::*;
use crate::amqp::types::{
    be16, be64, from_be16, from_be64, lemma_be16_roundtrip, lemma_be64_roundtrip,
    shortstr_bytes, write_longlong, write_octet, write_short, write_shortstr, WireError,
    WireReader,
};
use crate::amqp::table::{
    encode_table, parse_table, read_field_table, table_view, write_field_table, FieldTable,
    FieldValueView,
};

verus! {

/// The number of basic properties.
pub const PROPERTY_COUNT: usize = 14;

/// The optional properties of a message.
#[derive(Debug, Clone)]
pub struct BasicProperties {
    pub content_type: Option<String>,
    pub content_encoding: Option<String>,
    pub headers: Option<FieldTable>,
    pub delivery_mode: Option<u8>,
    pub priority: Option<u8>,
    pub correlation_id: Option<String>,
    pub reply_to: Option<String>,
    pub expiration: Option<String>,
    pub message_id: Option<String>,
    pub timestamp: Option<u64>,
    pub message_type: Option<String>,
    pub user_id: Option<String>,
    pub app_id: Option<String>,
    pub cluster_id: Option<String>,
}

impl Default for BasicProperties {
    fn default() -> (r: Self)
        ensures
            forall|i: int| 0 <= i < 14 ==> (#[trigger] r.slots()[i]) is None,
    {
        let r = BasicProperties {
            content_type: None,
            content_encoding: None,
            headers: None,
            delivery_mode: None,
            priority: None,
            correlation_id: None,
            reply_to: None,
            expiration: None,
            message_id: None,
            timestamp: None,
            message_type: None,
            user_id: None,
            app_id: None,
            cluster_id: None,
        };
        r
    }
}

/// The model of one property value.
pub enum PropValue {
    /// A short string, by its bytes.
    Str(Seq<u8>),
    /// A field table, by its entries.
    Table(Seq<(Seq<u8>, FieldValueView)>),
    /// An octet.
    Octet(u8),
    /// A timestamp.
    LongLong(u64),
}

/// How property `i` is written: 0 short string, 1 table, 2 octet,
/// 3 long-long.
pub open spec fn prop_kind(i: int) -> int {
    if i == 2 {
        1
    } else if i == 3 || i == 4 {
        2
    } else if i == 9 {
        3
    } else {
        0
    }
}

/// The flag bit that announces property `i`.
pub open spec fn prop_bit(i: int) -> int {
    if i == 0 { 0x8000 } else if i == 1 { 0x4000 } else if i == 2 { 0x2000 } else if i == 3 {
        0x1000
    } else if i == 4 { 0x800 } else if i == 5 { 0x400 } else if i == 6 { 0x200 } else if i
        == 7 { 0x100 } else if i == 8 { 0x80 } else if i == 9 { 0x40 } else if i == 10 {
        0x20
    } else if i == 11 { 0x10 } else if i == 12 { 8 } else { 4 }
}

/// Whether the flag word announces property `i`.
pub open spec fn has_prop(flags: u16, i: int) -> bool {
    (flags as int / prop_bit(i)) % 2 == 1
}

/// The model of a string property.
pub open spec fn str_slot(o: Option<String>) -> Option<PropValue> {
    match o {
        Some(s) => Some(PropValue::Str(encode_utf8(s@))),
        None => None,
    }
}

impl BasicProperties {
    /// The fourteen properties in wire order.
    pub open spec fn slots(&self) -> Seq<Option<PropValue>> {
        seq![
            str_slot(self.content_type),
            str_slot(self.content_encoding),
            match self.headers {
                Some(t) => Some(PropValue::Table(table_view(t@))),
                None => None,
            },
            match self.delivery_mode {
                Some(v) => Some(PropValue::Octet(v)),
                None => None,
            },
            match self.priority {
                Some(v) => Some(PropValue::Octet(v)),
                None => None,
            },
            str_slot(self.correlation_id),
            str_slot(self.reply_to),
            str_slot(self.expiration),
            str_slot(self.message_id),
            match self.timestamp {
                Some(v) => Some(PropValue::LongLong(v)),
                None => None,
            },
            str_slot(self.message_type),
            str_slot(self.user_id),
            str_slot(self.app_id),
            str_slot(self.cluster_id),
        ]
    }
}

// ─── Encoding ─────────────────────────────────────────────────────────

/// The flag word announcing the present properties from `i` on.
pub open spec fn flags_from(s: Seq<Option<PropValue>>, i: int) -> int
    decreases 14 - i,
{
    if i >= 14 || i < 0 {
        0
    } else {
        (if s[i] is Some { prop_bit(i) } else { 0 }) + flags_from(s, i + 1)
    }
}

/// The bytes of one property value.
pub open spec fn encode_prop(v: PropValue) -> Result<Seq<u8>, WireError> {
    match v {
        PropValue::Str(b) => if b.len() <= 255 {
            Ok(shortstr_bytes(b))
        } else {
            Err(WireError::ShortStrTooLong)
        },
        PropValue::Table(t) => encode_table(t),
        PropValue::Octet(x) => Ok(seq![x]),
        PropValue::LongLong(x) => Ok(be64(x)),
    }
}

/// The bytes of the present properties from `i` on, or the error of the
/// first one that cannot be written.
#[verifier::opaque]
pub open spec fn encode_props_from(s: Seq<Option<PropValue>>, i: int) -> Result<Seq<u8>, WireError>
    decreases 14 - i,
{
    if i >= 14 || i < 0 {
        Ok(Seq::empty())
    } else {
        let rest = encode_props_from(s, i + 1);
        match s[i] {
            None => rest,
            Some(v) => match encode_prop(v) {
                Err(e) => Err(e),
                Ok(b) => match rest {
                    Ok(r) => Ok(b + r),
                    Err(e) => Err(e),
                },
            },
        }
    }
}

/// One step of [`encode_props_from`].
pub proof fn lemma_props_unfold(s: Seq<Option<PropValue>>, i: int)
    requires
        0 <= i < 14,
    ensures
        encode_props_from(s, i) == match s[i] {
            None => encode_props_from(s, i + 1),
            Some(v) => match encode_prop(v) {
                Err(e) => Err(e),
                Ok(b) => match encode_props_from(s, i + 1) {
                    Ok(r) => Ok(b + r),
                    Err(e) => Err(e),
                },
            },
        },
{
    reveal(encode_props_from);
}

/// [`encode_props_from`] past the last property is empty.
pub proof fn lemma_props_end(s: Seq<Option<PropValue>>)
    ensures
        encode_props_from(s, 14) == Ok::<Seq<u8>, WireError>(Seq::empty()),
{
    reveal(encode_props_from);
}

/// The bytes of a property list: the flag word, then the present values.
pub open spec fn encode_properties(s: Seq<Option<PropValue>>) -> Result<Seq<u8>, WireError> {
    match encode_props_from(s, 0) {
        Ok(b) => Ok(be16(flags_from(s, 0) as u16) + b),
        Err(e) => Err(e),
    }
}

/// A borrowed property value, as the encoder walks the fields.
enum PropRef<'a> {
    Str(&'a String),
    Table(&'a FieldTable),
    Octet(u8),
    LongLong(u64),
}

impl<'a> PropRef<'a> {
    spec fn model(&self) -> PropValue {
        match self {
            PropRef::Str(s) => PropValue::Str(encode_utf8(s@)),
            PropRef::Table(t) => PropValue::Table(table_view(t@)),
            PropRef::Octet(x) => PropValue::Octet(*x),
            PropRef::LongLong(x) => PropValue::LongLong(*x),
        }
    }
}

spec fn ref_model(o: Option<PropRef>) -> Option<PropValue> {
    match o {
        Some(r) => Some(r.model()),
        None => None,
    }
}

fn str_ref<'a>(o: &'a Option<String>) -> (r: Option<PropRef<'a>>)
    ensures
        ref_model(r) == str_slot(*o),
{
    match o {
        Some(s) => Some(PropRef::Str(s)),
        None => None,
    }
}

/// The sum of the flag bits from `i` on stays below the next higher bit.
proof fn lemma_flags_bound(s: Seq<Option<PropValue>>, i: int)
    requires
        0 <= i <= 14,
    ensures
        0 <= flags_from(s, i),
        i < 14 ==> flags_from(s, i) <= 2 * prop_bit(i) - 4,
    decreases 14 - i,
{
    if i < 14 {
        lemma_flags_bound(s, i + 1);
    }
}

/// Writes one property value.
fn write_prop(buf: &mut Vec<u8>, v: &PropRef) -> (r: Result<(), WireError>)
    ensures
        match encode_prop(v.model()) {
            Ok(b) => r is Ok && final(buf)@ == old(buf)@ + b,
            Err(e) => r == Err::<(), WireError>(e) && final(buf)@ == old(buf)@,
        },
{
    match v {
        PropRef::Str(s) => write_shortstr(buf, s.as_str()),
        PropRef::Table(t) => write_field_table(buf, t.as_slice()),
        PropRef::Octet(x) => {
            write_octet(buf, *x);
            Ok(())
        },
        PropRef::LongLong(x) => {
            write_longlong(buf, *x);
            Ok(())
        },
    }
}

impl BasicProperties {
    fn refs(&self) -> (r: Vec<Option<PropRef>>)
        ensures
            r@.len() == 14,
            r@.map_values(|o: Option<PropRef>| ref_model(o)) == self.slots(),
    {
        let mut r: Vec<Option<PropRef>> = Vec::new();
        r.push(str_ref(&self.content_type));
        r.push(str_ref(&self.content_encoding));
        r.push(
            match &self.headers {
                Some(t) => Some(PropRef::Table(t)),
                None => None,
            },
        );
        r.push(
            match self.delivery_mode {
                Some(x) => Some(PropRef::Octet(x)),
                None => None,
            },
        );
        r.push(
            match self.priority {
                Some(x) => Some(PropRef::Octet(x)),
                None => None,
            },
        );
        r.push(str_ref(&self.correlation_id));
        r.push(str_ref(&self.reply_to));
        r.push(str_ref(&self.expiration));
        r.push(str_ref(&self.message_id));
        r.push(
            match self.timestamp {
                Some(x) => Some(PropRef::LongLong(x)),
                None => None,
            },
        );
        r.push(str_ref(&self.message_type));
        r.push(str_ref(&self.user_id));
        r.push(str_ref(&self.app_id));
        r.push(str_ref(&self.cluster_id));
        assert(r@.map_values(|o: Option<PropRef>| ref_model(o)) =~= self.slots());
        r
    }

    /// Appends the flag word and the present properties to `buf`; on an
    /// error (a string over 255 bytes, a table that cannot be written)
    /// `buf` is left as it was.
    pub fn encode(&self, buf: &mut Vec<u8>) -> (r: Result<(), WireError>)
        ensures
            match encode_properties(self.slots()) {
                Ok(b) => r is Ok && final(buf)@ == old(buf)@ + b,
                Err(e) => r == Err::<(), WireError>(e) && final(buf)@ == old(buf)@,
            },
    {
        let refs = self.refs();
        let ghost sl = self.slots();
        assert forall|i: int| 0 <= i < 14 implies ref_model(#[trigger] refs@[i]) == sl[i] by {
            assert(refs@.map_values(|o: Option<PropRef>| ref_model(o))[i] == sl[i]);
        }
        let mut flags: u32 = 0;
        let mut j: usize = 14;
        proof {
            lemma_flags_bound(sl, 0);
        }
        while j > 0
            invariant
                j <= 14,
                refs@.len() == 14,
                forall|i: int| 0 <= i < 14 ==> ref_model(#[trigger] refs@[i]) == sl[i],
                flags == flags_from(sl, j as int),
            decreases j,
        {
            proof {
                lemma_flags_bound(sl, j as int);
                lemma_flags_bound(sl, j - 1);
            }
            let bit: u32 = if j == 1 { 0x8000 } else if j == 2 { 0x4000 } else if j == 3 {
                0x2000
            } else if j == 4 { 0x1000 } else if j == 5 { 0x800 } else if j == 6 { 0x400 } else if j
                == 7 { 0x200 } else if j == 8 { 0x100 } else if j == 9 { 0x80 } else if j == 10 {
                0x40
            } else if j == 11 { 0x20 } else if j == 12 { 0x10 } else if j == 13 { 8 } else { 4 };
            assert(ref_model(refs@[j - 1]) == sl[j - 1]);
            if refs[j - 1].is_some() {
                flags = flags + bit;
            }
            j = j - 1;
        }
        let mut body: Vec<u8> = Vec::new();
        let mut i: usize = 0;
        proof {
            match encode_props_from(sl, 0) {
                Ok(b) => assert(body@ + b =~= b),
                Err(_) => {},
            }
        }
        while i < 14
            invariant
                i <= 14,
                buf@ == old(buf)@,
                sl == self.slots(),
                refs@.len() == 14,
                forall|k: int| 0 <= k < 14 ==> ref_model(#[trigger] refs@[k]) == sl[k],
                encode_props_from(sl, 0) == match encode_props_from(sl, i as int) {
                    Ok(r) => Ok::<Seq<u8>, WireError>(body@ + r),
                    Err(e) => Err(e),
                },
            decreases 14 - i,
        {
            assert(ref_model(refs@[i as int]) == sl[i as int]);
            proof {
                lemma_props_unfold(sl, i as int);
            }
            let ghost before = body@;
            match &refs[i] {
                Some(v) => {
                    match write_prop(&mut body, v) {
                        Ok(()) => {},
                        Err(e) => {
                            assert(encode_props_from(sl, i as int) == Err::<Seq<u8>, WireError>(e));
                            return Err(e);
                        },
                    }
                    proof {
                        match encode_props_from(sl, i + 1) {
                            Ok(r) => {
                                assert(before + (encode_prop(v.model())->Ok_0 + r) =~= body@ + r);
                            },
                            Err(_) => {},
                        }
                    }
                },
                None => {},
            }
            i = i + 1;
        }
        proof {
            lemma_props_end(sl);
            assert(body@ + Seq::<u8>::empty() =~= body@);
        }
        write_short(buf, flags as u16);
        crate::amqp::types::push_all(buf, body.as_slice());
        assert(buf@ =~= old(buf)@ + encode_properties(sl)->Ok_0);
        Ok(())
    }
}

// ─── Decoding ─────────────────────────────────────────────────────────

/// A property value of kind `kind` read from the front of `s`, and the
/// number of bytes it takes.
pub open spec fn parse_prop(kind: int, s: Seq<u8>) -> Result<(PropValue, int), WireError> {
    if kind == 0 {
        if s.len() < 1 || s.len() < 1 + s[0] {
            Err(WireError::UnexpectedEof)
        } else if !valid_utf8(s.subrange(1, 1 + s[0])) {
            Err(WireError::InvalidUtf8)
        } else {
            Ok((PropValue::Str(s.subrange(1, 1 + s[0])), 1 + s[0]))
        }
    } else if kind == 1 {
        match parse_table(s) {
            Ok((es, k)) => Ok((PropValue::Table(es), k)),
            Err(e) => Err(e),
        }
    } else if kind == 2 {
        if s.len() < 1 {
            Err(WireError::UnexpectedEof)
        } else {
            Ok((PropValue::Octet(s[0]), 1))
        }
    } else {
        if s.len() < 8 {
            Err(WireError::UnexpectedEof)
        } else {
            Ok((PropValue::LongLong(from_be64(s.subrange(0, 8))), 8))
        }
    }
}

/// The properties from `i` on that `flags` announces, read from the front
/// of `s`, and the number of bytes they take.
#[verifier::opaque]
pub open spec fn decode_props_from(flags: u16, s: Seq<u8>, i: int) -> Result<
    (Seq<Option<PropValue>>, int),
    WireError,
>
    decreases 14 - i,
{
    if i >= 14 || i < 0 {
        Ok((Seq::empty(), 0))
    } else if has_prop(flags, i) {
        match parse_prop(prop_kind(i), s) {
            Err(e) => Err(e),
            Ok((v, k)) => if 0 <= k <= s.len() {
                match decode_props_from(flags, s.subrange(k, s.len() as int), i + 1) {
                    Ok((rest, k2)) => Ok((seq![Some(v)] + rest, k + k2)),
                    Err(e) => Err(e),
                }
            } else {
                Err(WireError::UnexpectedEof)
            },
        }
    } else {
        match decode_props_from(flags, s, i + 1) {
            Ok((rest, k2)) => Ok((seq![None] + rest, k2)),
            Err(e) => Err(e),
        }
    }
}

/// One step of [`decode_props_from`].
pub proof fn lemma_decode_unfold(flags: u16, s: Seq<u8>, i: int)
    requires
        0 <= i < 14,
    ensures
        decode_props_from(flags, s, i) == if has_prop(flags, i) {
            match parse_prop(prop_kind(i), s) {
                Err(e) => Err(e),
                Ok((v, k)) => if 0 <= k <= s.len() {
                    match decode_props_from(flags, s.subrange(k, s.len() as int), i + 1) {
                        Ok((rest, k2)) => Ok((seq![Some(v)] + rest, k + k2)),
                        Err(e) => Err(e),
                    }
                } else {
                    Err(WireError::UnexpectedEof)
                },
            }
        } else {
            match decode_props_from(flags, s, i + 1) {
                Ok((rest, k2)) => Ok((seq![None] + rest, k2)),
                Err(e) => Err(e),
            }
        },
{
    reveal(decode_props_from);
}

/// [`decode_props_from`] past the last property reads nothing.
pub proof fn lemma_decode_end(flags: u16, s: Seq<u8>)
    ensures
        decode_props_from(flags, s, 14) == Ok::<(Seq<Option<PropValue>>, int), WireError>(
            (Seq::empty(), 0),
        ),
{
    reveal(decode_props_from);
}

/// A property list read from the front of `s`: the flag word, then the
/// announced values.
pub open spec fn decode_properties(s: Seq<u8>) -> Result<(Seq<Option<PropValue>>, int), WireError> {
    if s.len() < 2 {
        Err(WireError::UnexpectedEof)
    } else {
        match decode_props_from(from_be16(s.subrange(0, 2)), s.subrange(2, s.len() as int), 0) {
            Ok((sl, k)) => Ok((sl, 2 + k)),
            Err(e) => Err(e),
        }
    }
}

/// An owned property value as the decoder reads it.
enum PropSlot {
    Str(String),
    Table(FieldTable),
    Octet(u8),
    LongLong(u64),
}

impl PropSlot {
    spec fn model(&self) -> PropValue {
        match self {
            PropSlot::Str(s) => PropValue::Str(encode_utf8(s@)),
            PropSlot::Table(t) => PropValue::Table(table_view(t@)),
            PropSlot::Octet(x) => PropValue::Octet(*x),
            PropSlot::LongLong(x) => PropValue::LongLong(*x),
        }
    }
}

spec fn slot_model(o: Option<PropSlot>) -> Option<PropValue> {
    match o {
        Some(r) => Some(r.model()),
        None => None,
    }
}

spec fn kind_fits(o: Option<PropSlot>, kind: int) -> bool {
    match o {
        None => true,
        Some(PropSlot::Str(_)) => kind == 0,
        Some(PropSlot::Table(_)) => kind == 1,
        Some(PropSlot::Octet(_)) => kind == 2,
        Some(PropSlot::LongLong(_)) => kind == 3,
    }
}

fn kind_of(i: usize) -> (k: u8)
    ensures
        k == prop_kind(i as int),
{
    if i == 2 {
        1
    } else if i == 3 || i == 4 {
        2
    } else if i == 9 {
        3
    } else {
        0
    }
}

fn bit_of(i: usize) -> (b: u16)
    requires
        i < 14,
    ensures
        b == prop_bit(i as int),
{
    if i == 0 { 0x8000 } else if i == 1 { 0x4000 } else if i == 2 { 0x2000 } else if i == 3 {
        0x1000
    } else if i == 4 { 0x800 } else if i == 5 { 0x400 } else if i == 6 { 0x200 } else if i
        == 7 { 0x100 } else if i == 8 { 0x80 } else if i == 9 { 0x40 } else if i == 10 {
        0x20
    } else if i == 11 { 0x10 } else if i == 12 { 8 } else { 4 }
}

/// Reads one property value of kind `kind`.
fn read_prop(rd: &mut WireReader, kind: u8) -> (r: Result<PropSlot, WireError>)
    requires
        old(rd).pos <= old(rd).data@.len(),
        kind < 4,
    ensures
        final(rd).data == old(rd).data,
        final(rd).pos <= final(rd).data@.len(),
        match parse_prop(kind as int, old(rd).rest()) {
            Ok((v, k)) => (r matches Ok(x) && x.model() == v && kind_fits(Some(x), kind as int))
                && final(rd).pos == old(rd).pos + k,
            Err(e) => r == Err::<PropSlot, WireError>(e),
        },
{
    if kind == 0 {
        let s = rd.read_shortstr()?;
        Ok(PropSlot::Str(s))
    } else if kind == 1 {
        let t = read_field_table(rd)?;
        Ok(PropSlot::Table(t))
    } else if kind == 2 {
        let x = rd.read_octet()?;
        Ok(PropSlot::Octet(x))
    } else {
        let x = rd.read_longlong()?;
        Ok(PropSlot::LongLong(x))
    }
}

fn take_str(o: Option<PropSlot>) -> (r: Option<String>)
    requires
        kind_fits(o, 0),
    ensures
        str_slot(r) == slot_model(o),
{
    match o {
        Some(PropSlot::Str(s)) => Some(s),
        _ => None,
    }
}

fn take_octet(o: Option<PropSlot>) -> (r: Option<u8>)
    requires
        kind_fits(o, 2),
    ensures
        match r {
            Some(x) => slot_model(o) == Some(PropValue::Octet(x)),
            None => slot_model(o) is None,
        },
{
    match o {
        Some(PropSlot::Octet(x)) => Some(x),
        _ => None,
    }
}

impl BasicProperties {
    /// Builds the properties from the fourteen values read in wire order.
    fn from_slots(slots: Vec<Option<PropSlot>>) -> (r: Self)
        requires
            slots@.len() == 14,
            forall|i: int| 0 <= i < 14 ==> kind_fits(#[trigger] slots@[i], prop_kind(i)),
        ensures
            r.slots() == slots@.map_values(|o: Option<PropSlot>| slot_model(o)),
    {
        let ghost v = slots@;
        assert(kind_fits(v[13], 0) && kind_fits(v[12], 0) && kind_fits(v[11], 0) && kind_fits(v[10], 0));
        assert(kind_fits(v[9], 3) && kind_fits(v[8], 0) && kind_fits(v[7], 0) && kind_fits(v[6], 0));
        assert(kind_fits(v[5], 0) && kind_fits(v[4], 2) && kind_fits(v[3], 2) && kind_fits(v[2], 1));
        assert(kind_fits(v[1], 0) && kind_fits(v[0], 0));
        let mut slots = slots;
        let cluster_id = take_str(slots.pop().unwrap());
        let app_id = take_str(slots.pop().unwrap());
        let user_id = take_str(slots.pop().unwrap());
        let message_type = take_str(slots.pop().unwrap());
        let timestamp = match slots.pop().unwrap() {
            Some(PropSlot::LongLong(x)) => Some(x),
            _ => None,
        };
        let message_id = take_str(slots.pop().unwrap());
        let expiration = take_str(slots.pop().unwrap());
        let reply_to = take_str(slots.pop().unwrap());
        let correlation_id = take_str(slots.pop().unwrap());
        let priority = take_octet(slots.pop().unwrap());
        let delivery_mode = take_octet(slots.pop().unwrap());
        let headers = match slots.pop().unwrap() {
            Some(PropSlot::Table(t)) => Some(t),
            _ => None,
        };
        let content_encoding = take_str(slots.pop().unwrap());
        let content_type = take_str(slots.pop().unwrap());
        let r = BasicProperties {
            content_type,
            content_encoding,
            headers,
            delivery_mode,
            priority,
            correlation_id,
            reply_to,
            expiration,
            message_id,
            timestamp,
            message_type,
            user_id,
            app_id,
            cluster_id,
        };
        assert(r.slots() =~= v.map_values(|o: Option<PropSlot>| slot_model(o)));
        r
    }

    /// Reads a flag word and the properties it announces.
    pub fn decode(rd: &mut WireReader) -> (r: Result<BasicProperties, WireError>)
        requires
            old(rd).pos <= old(rd).data@.len(),
        ensures
            final(rd).data == old(rd).data,
            final(rd).pos <= final(rd).data@.len(),
            match decode_properties(old(rd).rest()) {
                Ok((sl, k)) => (r matches Ok(p) && p.slots() == sl) && final(rd).pos == old(rd).pos
                    + k,
                Err(e) => r == Err::<BasicProperties, WireError>(e),
            },
    {
        let ghost rest0 = rd.rest();
        let flags = rd.read_short()?;
        let ghost start = rd.pos as int;
        let ghost body = rest0.subrange(2, rest0.len() as int);
        assert(rd.rest() =~= body);
        let mut slots: Vec<Option<PropSlot>> = Vec::new();
        let mut i: usize = 0;
        proof {
            match decode_props_from(flags, body, 0) {
                Ok((sl, k)) => {
                    assert(slots@.map_values(|o: Option<PropSlot>| slot_model(o)) + sl =~= sl);
                },
                Err(_) => {},
            }
        }
        assert(decode_properties(rest0) == match decode_props_from(flags, body, 0) {
            Ok((sl, k)) => Ok::<(Seq<Option<PropValue>>, int), WireError>((sl, 2 + k)),
            Err(e) => Err(e),
        });
        while i < 14
            invariant
                i <= 14,
                slots@.len() == i,
                rest0 == old(rd).rest(),
                start == old(rd).pos + 2,
                decode_properties(rest0) == match decode_props_from(flags, body, 0) {
                    Ok((sl, k)) => Ok::<(Seq<Option<PropValue>>, int), WireError>((sl, 2 + k)),
                    Err(e) => Err(e),
                },
                rd.data == old(rd).data,
                start <= rd.pos <= rd.data@.len(),
                rd.rest() == body.subrange(rd.pos - start, body.len() as int),
                body.len() == rd.data@.len() - start,
                forall|j: int| 0 <= j < i ==> kind_fits(#[trigger] slots@[j], prop_kind(j)),
                decode_props_from(flags, body, 0) == match decode_props_from(flags, rd.rest(), i as int) {
                    Ok((sl, k)) => Ok::<(Seq<Option<PropValue>>, int), WireError>(
                        (slots@.map_values(|o: Option<PropSlot>| slot_model(o)) + sl, (rd.pos - start) + k),
                    ),
                    Err(e) => Err(e),
                },
            decreases 14 - i,
        {
            let ghost here = rd.rest();
            let ghost pre = slots@.map_values(|o: Option<PropSlot>| slot_model(o));
            proof {
                lemma_decode_unfold(flags, here, i as int);
            }
            let bit = bit_of(i);
            assert(((flags / bit) % 2 == 1) == has_prop(flags, i as int));
            if (flags / bit) % 2 == 1 {
                let kind = kind_of(i);
                let v = read_prop(rd, kind)?;
                proof {
                    let k = parse_prop(prop_kind(i as int), here)->Ok_0.1;
                    assert(rd.rest() =~= here.subrange(k, here.len() as int));
                    assert(rd.rest() =~= body.subrange(rd.pos - start, body.len() as int));
                }
                slots.push(Some(v));
                proof {
                    let pv = v.model();
                    assert(slots@.map_values(|o: Option<PropSlot>| slot_model(o)) =~= pre + seq![Some(pv)]);
                    match decode_props_from(flags, rd.rest(), i + 1) {
                        Ok((sl, k2)) => {
                            assert(pre + (seq![Some(pv)] + sl) =~= (pre + seq![Some(pv)]) + sl);
                        },
                        Err(_) => {},
                    }
                }
            } else {
                slots.push(None);
                proof {
                    assert(slots@.map_values(|o: Option<PropSlot>| slot_model(o)) =~= pre + seq![None]);
                    match decode_props_from(flags, rd.rest(), i + 1) {
                        Ok((sl, k2)) => {
                            assert(pre + (seq![None] + sl) =~= (pre + seq![None]) + sl);
                        },
                        Err(_) => {},
                    }
                }
            }
            i = i + 1;
        }
        proof {
            lemma_decode_end(flags, rd.rest());
            let m = slots@.map_values(|o: Option<PropSlot>| slot_model(o));
            assert(m + Seq::<Option<PropValue>>::empty() =~= m);
            assert(rest0.subrange(0, 2) =~= rest0.subrange(0, 2));
        }
        Ok(BasicProperties::from_slots(slots))
    }
}

} // verus!
