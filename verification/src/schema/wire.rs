//! Schema-registry wire prefix: a magic byte `0x00` followed by the
//! big-endian `u32` schema ID, in front of the encoded payload.

use vstd::prelude::*;
use crate::amqp::types::{be32, from_be32, get_u32, lemma_be32_roundtrip};

verus! {

/// Magic byte at the start of every schema-registry-encoded message.
pub const WIRE_MAGIC: u8 = 0x00;

/// Total size of the wire prefix (magic + 4-byte schema ID).
pub const WIRE_PREFIX_LEN: usize = 5;

/// The five prefix bytes for a schema ID.
pub open spec fn prefix_bytes(schema_id: u32) -> Seq<u8> {
    seq![WIRE_MAGIC] + be32(schema_id)
}

/// Encodes the 5-byte wire prefix for a given schema ID.
pub fn encode_prefix(schema_id: u32) -> (r: [u8; 5])
    ensures
        r@ == prefix_bytes(schema_id),
{
    let r = [
        WIRE_MAGIC,
        (schema_id / 0x100_0000) as u8,
        ((schema_id / 0x1_0000) % 256) as u8,
        ((schema_id / 256) % 256) as u8,
        (schema_id % 256) as u8,
    ];
    assert(r@ =~= prefix_bytes(schema_id));
    r
}

/// Whether a body starts with the wire prefix.
pub open spec fn has_prefix_spec(body: Seq<u8>) -> bool {
    body.len() >= 5 && body[0] == WIRE_MAGIC
}

/// Decodes the wire prefix: the schema ID and the payload after it, or
/// `None` when the body is shorter than the prefix or its magic byte is
/// wrong.
pub fn decode_prefix(body: &[u8]) -> (r: Option<(u32, &[u8])>)
    ensures
        r is Some <==> has_prefix_spec(body@),
        r matches Some((id, payload)) ==> id == from_be32(body@.subrange(1, 5)) && payload@
            == body@.subrange(5, body@.len() as int),
{
    if body.len() < WIRE_PREFIX_LEN {
        return None;
    }
    if body[0] != WIRE_MAGIC {
        return None;
    }
    let schema_id = get_u32(body, 1);
    let (_, payload) = body.split_at(WIRE_PREFIX_LEN);
    Some((schema_id, payload))
}

/// Returns true if the body starts with the schema-registry wire prefix.
pub fn has_wire_prefix(body: &[u8]) -> (r: bool)
    ensures
        r == has_prefix_spec(body@),
{
    body.len() >= WIRE_PREFIX_LEN && body[0] == WIRE_MAGIC
}

/// A prefixed payload decodes back to the schema ID and the payload.
pub proof fn lemma_prefix_roundtrip(schema_id: u32, payload: Seq<u8>)
    ensures
        has_prefix_spec(prefix_bytes(schema_id) + payload),
        from_be32((prefix_bytes(schema_id) + payload).subrange(1, 5)) == schema_id,
        (prefix_bytes(schema_id) + payload).subrange(5, 5 + payload.len() as int) == payload,
{
    let b = prefix_bytes(schema_id) + payload;
    lemma_be32_roundtrip(schema_id);
    assert(b.subrange(1, 5) =~= be32(schema_id));
    assert(b.subrange(5, 5 + payload.len() as int) =~= payload);
}

} // verus!
