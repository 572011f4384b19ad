//! AMQP 0-9-1 wire primitives: big-endian integers, short and long strings,
//! and a reader that walks an argument buffer.

use vstd::prelude::*;
use vstd::utf8::*;
use vstd::string::*;

verus! {

// ─── Big-endian encodings ─────────────────────────────────────────────

/// Big-endian encoding of a `u16`.
pub open spec fn be16(v: u16) -> Seq<u8> {
    seq![(v / 256) as u8, (v % 256) as u8]
}

/// Big-endian encoding of a `u32`.
pub open spec fn be32(v: u32) -> Seq<u8> {
    seq![
        (v / 0x100_0000) as u8,
        ((v / 0x1_0000) % 256) as u8,
        ((v / 256) % 256) as u8,
        (v % 256) as u8,
    ]
}

/// Big-endian encoding of a `u64`.
pub open spec fn be64(v: u64) -> Seq<u8> {
    be32((v / 0x1_0000_0000) as u32) + be32((v % 0x1_0000_0000) as u32)
}

/// The `u16` that two big-endian bytes denote.
pub open spec fn from_be16(b: Seq<u8>) -> u16 {
    (b[0] * 256 + b[1]) as u16
}

/// The `u32` that four big-endian bytes denote.
pub open spec fn from_be32(b: Seq<u8>) -> u32 {
    (b[0] * 0x100_0000 + b[1] * 0x1_0000 + b[2] * 256 + b[3]) as u32
}

/// The `u64` that eight big-endian bytes denote.
pub open spec fn from_be64(b: Seq<u8>) -> u64 {
    (from_be32(b.subrange(0, 4)) * 0x1_0000_0000 + from_be32(b.subrange(4, 8))) as u64
}

/// Decoding a big-endian `u16` gives back the encoded value.
pub proof fn lemma_be16_roundtrip(v: u16)
    ensures
        be16(v).len() == 2,
        from_be16(be16(v)) == v,
{
    let hi = v / 256;
    let lo = v % 256;
    assert(hi * 256 + lo == v) by (nonlinear_arith)
        requires hi == v / 256, lo == v % 256;
}

/// Decoding a big-endian `u32` gives back the encoded value.
pub proof fn lemma_be32_roundtrip(v: u32)
    ensures
        be32(v).len() == 4,
        from_be32(be32(v)) == v,
{
    let b0 = v / 0x100_0000;
    let b1 = (v / 0x1_0000) % 256;
    let b2 = (v / 256) % 256;
    let b3 = v % 256;
    assert(b0 < 256) by (nonlinear_arith)
        requires b0 == v / 0x100_0000, v < 0x1_0000_0000;
    assert(b0 * 0x100_0000 + b1 * 0x1_0000 + b2 * 256 + b3 == v) by (nonlinear_arith)
        requires
            b0 == v / 0x100_0000,
            b1 == (v / 0x1_0000) % 256,
            b2 == (v / 256) % 256,
            b3 == v % 256,
    ;
}

/// Decoding a big-endian `u64` gives back the encoded value.
pub proof fn lemma_be64_roundtrip(v: u64)
    ensures
        be64(v).len() == 8,
        from_be64(be64(v)) == v,
{
    let hi = (v / 0x1_0000_0000) as u32;
    let lo = (v % 0x1_0000_0000) as u32;
    assert(v / 0x1_0000_0000 < 0x1_0000_0000) by (nonlinear_arith)
        requires v < 0x1_0000_0000_0000_0000int;
    lemma_be32_roundtrip(hi);
    lemma_be32_roundtrip(lo);
    assert(be64(v).subrange(0, 4) =~= be32(hi));
    assert(be64(v).subrange(4, 8) =~= be32(lo));
    assert(hi * 0x1_0000_0000 + lo == v) by (nonlinear_arith)
        requires hi == v / 0x1_0000_0000, lo == v % 0x1_0000_0000;
}

// ─── Byte-buffer helpers ──────────────────────────────────────────────

/// Appends every byte of `data` to `buf`.
pub fn push_all(buf: &mut Vec<u8>, data: &[u8])
    ensures
        final(buf)@ == old(buf)@ + data@,
{
    let mut i: usize = 0;
    while i < data.len()
        invariant
            i <= data@.len(),
            buf@ == old(buf)@ + data@.subrange(0, i as int),
        decreases data@.len() - i,
    {
        buf.push(data[i]);
        i = i + 1;
        assert(data@.subrange(0, i as int) =~= data@.subrange(0, i - 1) + seq![data@[i - 1]]);
    }
    assert(data@.subrange(0, data@.len() as int) =~= data@);
}

/// Copies a byte range into a new vector.
pub fn copy_range(data: &[u8], start: usize, end: usize) -> (r: Vec<u8>)
    requires
        start <= end <= data@.len(),
    ensures
        r@ == data@.subrange(start as int, end as int),
{
    let mut out: Vec<u8> = Vec::with_capacity(end - start);
    let mut i: usize = start;
    while i < end
        invariant
            start <= i <= end <= data@.len(),
            out@ == data@.subrange(start as int, i as int),
        decreases end - i,
    {
        out.push(data[i]);
        i = i + 1;
        assert(data@.subrange(start as int, i as int) =~= data@.subrange(start as int, i - 1)
            + seq![data@[i - 1]]);
    }
    out
}

/// Reads a big-endian `u16` at `pos`.
pub fn get_u16(data: &[u8], pos: usize) -> (r: u16)
    requires
        pos + 2 <= data@.len(),
    ensures
        r == from_be16(data@.subrange(pos as int, pos + 2)),
{
    (data[pos] as u16) * 256 + (data[pos + 1] as u16)
}

/// Reads a big-endian `u32` at `pos`.
pub fn get_u32(data: &[u8], pos: usize) -> (r: u32)
    requires
        pos + 4 <= data@.len(),
    ensures
        r == from_be32(data@.subrange(pos as int, pos + 4)),
{
    (data[pos] as u32) * 0x100_0000 + (data[pos + 1] as u32) * 0x1_0000 + (data[pos + 2] as u32)
        * 256 + (data[pos + 3] as u32)
}

/// Reads a big-endian `u64` at `pos`.
pub fn get_u64(data: &[u8], pos: usize) -> (r: u64)
    requires
        pos + 8 <= data@.len(),
    ensures
        r == from_be64(data@.subrange(pos as int, pos + 8)),
{
    let hi = get_u32(data, pos);
    let _len = data.len();
    let lo = get_u32(data, pos + 4);
    assert(data@.subrange(pos as int, pos + 8).subrange(0, 4) =~= data@.subrange(
        pos as int,
        pos + 4,
    ));
    assert(data@.subrange(pos as int, pos + 8).subrange(4, 8) =~= data@.subrange(
        pos + 4,
        pos + 8,
    ));
    (hi as u64) * 0x1_0000_0000 + (lo as u64)
}

/// Big-endian bytes of a `u16`.
pub fn u16_bytes(v: u16) -> (r: [u8; 2])
    ensures
        r@ == be16(v),
{
    let r = [(v / 256) as u8, (v % 256) as u8];
    assert(r@ =~= be16(v));
    r
}

/// Big-endian bytes of a `u32`.
pub fn u32_bytes(v: u32) -> (r: [u8; 4])
    ensures
        r@ == be32(v),
{
    let r = [
        (v / 0x100_0000) as u8,
        ((v / 0x1_0000) % 256) as u8,
        ((v / 256) % 256) as u8,
        (v % 256) as u8,
    ];
    assert(r@ =~= be32(v));
    r
}

// ─── Writers ──────────────────────────────────────────────────────────

/// A value that does not fit its AMQP field, or a buffer that ends early.
#[derive(Debug, Clone, Copy, PartialEq, Eq)]
pub enum WireError {
    /// The buffer ended before the value did.
    UnexpectedEof,
    /// A short string longer than 255 bytes.
    ShortStrTooLong,
    /// A long string longer than `u32::MAX` bytes.
    LongStrTooLong,
    /// String bytes that are not UTF-8.
    InvalidUtf8,
    /// A field-table value whose type tag is not an AMQP field type.
    UnknownFieldType(u8),
}

/// Writes one octet.
pub fn write_octet(buf: &mut Vec<u8>, v: u8)
    ensures
        final(buf)@ == old(buf)@.push(v),
{
    buf.push(v);
}

/// Writes a `short` (big-endian `u16`).
pub fn write_short(buf: &mut Vec<u8>, v: u16)
    ensures
        final(buf)@ == old(buf)@ + be16(v),
{
    buf.push((v / 256) as u8);
    buf.push((v % 256) as u8);
    assert(buf@ =~= old(buf)@ + be16(v));
}

/// Writes a `long` (big-endian `u32`).
pub fn write_long(buf: &mut Vec<u8>, v: u32)
    ensures
        final(buf)@ == old(buf)@ + be32(v),
{
    buf.push((v / 0x100_0000) as u8);
    buf.push(((v / 0x1_0000) % 256) as u8);
    buf.push(((v / 256) % 256) as u8);
    buf.push((v % 256) as u8);
    assert(buf@ =~= old(buf)@ + be32(v));
}

/// Writes a `longlong` (big-endian `u64`).
pub fn write_longlong(buf: &mut Vec<u8>, v: u64)
    ensures
        final(buf)@ == old(buf)@ + be64(v),
{
    let hi = (v / 0x1_0000_0000) as u32;
    let lo = (v % 0x1_0000_0000) as u32;
    write_long(buf, hi);
    write_long(buf, lo);
    assert(buf@ =~= old(buf)@ + be64(v));
}

/// The encoding of a short string: one length octet, then the bytes.
pub open spec fn shortstr_bytes(s: Seq<u8>) -> Seq<u8> {
    seq![s.len() as u8] + s
}

/// The encoding of a long string: a `u32` length, then the bytes.
pub open spec fn longstr_bytes(s: Seq<u8>) -> Seq<u8> {
    be32(s.len() as u32) + s
}

/// Writes a short string; refuses one longer than 255 bytes and then
/// leaves the buffer as it was.
pub fn write_shortstr(buf: &mut Vec<u8>, s: &str) -> (r: Result<(), WireError>)
    ensures
        r is Ok <==> s.spec_bytes().len() <= 255,
        r is Ok ==> final(buf)@ == old(buf)@ + shortstr_bytes(s.spec_bytes()),
        r is Err ==> r == Err::<(), WireError>(WireError::ShortStrTooLong) && final(buf)@
            == old(buf)@,
{
    let bytes = s.as_bytes();
    if bytes.len() > 255 {
        return Err(WireError::ShortStrTooLong);
    }
    buf.push(bytes.len() as u8);
    push_all(buf, bytes);
    assert(buf@ =~= old(buf)@ + shortstr_bytes(s.spec_bytes()));
    Ok(())
}

/// Writes a long string; refuses one longer than `u32::MAX` bytes and then
/// leaves the buffer as it was.
pub fn write_longstr(buf: &mut Vec<u8>, data: &[u8]) -> (r: Result<(), WireError>)
    ensures
        r is Ok <==> data@.len() <= u32::MAX,
        r is Ok ==> final(buf)@ == old(buf)@ + longstr_bytes(data@),
        r is Err ==> r == Err::<(), WireError>(WireError::LongStrTooLong) && final(buf)@
            == old(buf)@,
{
    if data.len() > 0xFFFF_FFFF {
        return Err(WireError::LongStrTooLong);
    }
    write_long(buf, data.len() as u32);
    push_all(buf, data);
    assert(buf@ =~= old(buf)@ + longstr_bytes(data@));
    Ok(())
}

// ─── UTF-8 ────────────────────────────────────────────────────────────

/// Checks that `bytes` are UTF-8 and views them as a string slice.
///
/// Calls `std::str::from_utf8`; claims that it succeeds exactly on valid
/// UTF-8 and that the slice it returns holds the same bytes.
#[verifier::external_body]
pub fn utf8_str(bytes: &[u8]) -> (r: Option<&str>)
    ensures
        r is Some <==> valid_utf8(bytes@),
        r matches Some(s) ==> s.spec_bytes() == bytes@,
{
    std::str::from_utf8(bytes).ok()
}

/// What `String::from_utf8_lossy` makes of `bytes`.
pub uninterp spec fn utf8_lossy(bytes: Seq<u8>) -> Seq<char>;

/// U+FFFD, which stands in for each invalid UTF-8 sequence.
pub const REPLACEMENT_CHARACTER: char = '\u{FFFD}';

/// Turns bytes into a string, replacing what is not UTF-8.
///
/// Calls `String::from_utf8_lossy`, whose result depends on the bytes
/// alone; claims, as its documentation says, that UTF-8 input comes back
/// unchanged and that otherwise U+FFFD stands in the result.
#[verifier::external_body]
pub fn lossy_string(bytes: &[u8]) -> (r: String)
    ensures
        r@ == utf8_lossy(bytes@),
        valid_utf8(bytes@) ==> encode_utf8(r@) == bytes@,
        !valid_utf8(bytes@) ==> r@.contains(REPLACEMENT_CHARACTER),
{
    String::from_utf8_lossy(bytes).into_owned()
}

/// Turns UTF-8 bytes into an owned string, `None` when they are not UTF-8.
pub fn string_from_utf8(bytes: &[u8]) -> (r: Option<String>)
    ensures
        r is Some <==> valid_utf8(bytes@),
        r matches Some(s) ==> encode_utf8(s@) == bytes@,
{
    match utf8_str(bytes) {
        Some(s) => Some(s.to_owned()),
        None => None,
    }
}

// ─── Reader ───────────────────────────────────────────────────────────

/// A position in an argument buffer from which AMQP values are read in
/// sequence.
pub struct WireReader<'a> {
    pub data: &'a [u8],
    pub pos: usize,
}

impl<'a> WireReader<'a> {
    /// The bytes not read yet.
    pub open spec fn rest(&self) -> Seq<u8> {
        self.data@.subrange(self.pos as int, self.data@.len() as int)
    }

    /// A reader at the start of `data`.
    pub fn new(data: &'a [u8]) -> (r: Self)
        ensures
            r.data@ == data@,
            r.pos == 0,
    {
        WireReader { data, pos: 0 }
    }

    /// Number of bytes not read yet.
    pub fn remaining(&self) -> (r: usize)
        requires
            self.pos <= self.data@.len(),
        ensures
            r == self.rest().len(),
    {
        self.data.len() - self.pos
    }

    /// Reads one octet.
    pub fn read_octet(&mut self) -> (r: Result<u8, WireError>)
        requires
            old(self).pos <= old(self).data@.len(),
        ensures
            final(self).data == old(self).data,
            final(self).pos <= final(self).data@.len(),
            old(self).rest().len() >= 1 ==> r == Ok::<u8, WireError>(old(self).rest()[0])
                && final(self).pos == old(self).pos + 1,
            old(self).rest().len() < 1 ==> r == Err::<u8, WireError>(WireError::UnexpectedEof)
                && final(self).pos == old(self).pos,
    {
        if self.data.len() - self.pos < 1 {
            return Err(WireError::UnexpectedEof);
        }
        let v = self.data[self.pos];
        self.pos = self.pos + 1;
        Ok(v)
    }

    /// Reads a `short`.
    pub fn read_short(&mut self) -> (r: Result<u16, WireError>)
        requires
            old(self).pos <= old(self).data@.len(),
        ensures
            final(self).data == old(self).data,
            final(self).pos <= final(self).data@.len(),
            old(self).rest().len() >= 2 ==> r == Ok::<u16, WireError>(
                from_be16(old(self).rest().subrange(0, 2)),
            ) && final(self).pos == old(self).pos + 2,
            old(self).rest().len() < 2 ==> r == Err::<u16, WireError>(WireError::UnexpectedEof)
                && final(self).pos == old(self).pos,
    {
        if self.data.len() - self.pos < 2 {
            return Err(WireError::UnexpectedEof);
        }
        let v = get_u16(self.data, self.pos);
        assert(self.data@.subrange(self.pos as int, self.pos + 2) =~= self.rest().subrange(0, 2));
        self.pos = self.pos + 2;
        Ok(v)
    }

    /// Reads a `long`.
    pub fn read_long(&mut self) -> (r: Result<u32, WireError>)
        requires
            old(self).pos <= old(self).data@.len(),
        ensures
            final(self).data == old(self).data,
            final(self).pos <= final(self).data@.len(),
            old(self).rest().len() >= 4 ==> r == Ok::<u32, WireError>(
                from_be32(old(self).rest().subrange(0, 4)),
            ) && final(self).pos == old(self).pos + 4,
            old(self).rest().len() < 4 ==> r == Err::<u32, WireError>(WireError::UnexpectedEof)
                && final(self).pos == old(self).pos,
    {
        if self.data.len() - self.pos < 4 {
            return Err(WireError::UnexpectedEof);
        }
        let v = get_u32(self.data, self.pos);
        assert(self.data@.subrange(self.pos as int, self.pos + 4) =~= self.rest().subrange(0, 4));
        self.pos = self.pos + 4;
        Ok(v)
    }

    /// Reads a `longlong`.
    pub fn read_longlong(&mut self) -> (r: Result<u64, WireError>)
        requires
            old(self).pos <= old(self).data@.len(),
        ensures
            final(self).data == old(self).data,
            final(self).pos <= final(self).data@.len(),
            old(self).rest().len() >= 8 ==> r == Ok::<u64, WireError>(
                from_be64(old(self).rest().subrange(0, 8)),
            ) && final(self).pos == old(self).pos + 8,
            old(self).rest().len() < 8 ==> r == Err::<u64, WireError>(WireError::UnexpectedEof)
                && final(self).pos == old(self).pos,
    {
        if self.data.len() - self.pos < 8 {
            return Err(WireError::UnexpectedEof);
        }
        let v = get_u64(self.data, self.pos);
        assert(self.data@.subrange(self.pos as int, self.pos + 8) =~= self.rest().subrange(0, 8));
        self.pos = self.pos + 8;
        Ok(v)
    }

    /// Reads `n` raw bytes.
    pub fn read_bytes(&mut self, n: usize) -> (r: Result<Vec<u8>, WireError>)
        requires
            old(self).pos <= old(self).data@.len(),
        ensures
            final(self).data == old(self).data,
            final(self).pos <= final(self).data@.len(),
            old(self).rest().len() >= n ==> (r matches Ok(v) && v@ == old(self).rest().subrange(
                0,
                n as int,
            )) && final(self).pos == old(self).pos + n,
            old(self).rest().len() < n ==> r == Err::<Vec<u8>, WireError>(WireError::UnexpectedEof)
                && final(self).pos == old(self).pos,
    {
        if self.data.len() - self.pos < n {
            return Err(WireError::UnexpectedEof);
        }
        let v = copy_range(self.data, self.pos, self.pos + n);
        assert(self.data@.subrange(self.pos as int, self.pos + n) =~= self.rest().subrange(
            0,
            n as int,
        ));
        self.pos = self.pos + n;
        Ok(v)
    }

    /// Reads a short string: a length octet and that many UTF-8 bytes.
    pub fn read_shortstr(&mut self) -> (r: Result<String, WireError>)
        requires
            old(self).pos <= old(self).data@.len(),
        ensures
            final(self).data == old(self).data,
            final(self).pos <= final(self).data@.len(),
            ({
                let rest = old(self).rest();
                let n = rest[0] as int;
                &&& rest.len() < 1 || rest.len() < 1 + n ==> r == Err::<String, WireError>(
                    WireError::UnexpectedEof,
                )
                &&& rest.len() >= 1 + n && !valid_utf8(rest.subrange(1, 1 + n)) ==> r == Err::<
                    String,
                    WireError,
                >(WireError::InvalidUtf8)
                &&& r is Err ==> final(self).pos == old(self).pos
                &&& rest.len() >= 1 + n && valid_utf8(rest.subrange(1, 1 + n)) ==> (r matches Ok(s)
                    && encode_utf8(s@) == rest.subrange(1, 1 + n)) && final(self).pos == old(
                    self,
                ).pos + 1 + n
            }),
    {
        let ghost rest = self.rest();
        if self.data.len() - self.pos < 1 {
            return Err(WireError::UnexpectedEof);
        }
        let n = self.data[self.pos] as usize;
        if self.data.len() - self.pos - 1 < n {
            return Err(WireError::UnexpectedEof);
        }
        let start = self.pos + 1;
        let bytes = copy_range(self.data, start, start + n);
        assert(bytes@ =~= rest.subrange(1, 1 + n));
        match string_from_utf8(bytes.as_slice()) {
            Some(s) => {
                self.pos = start + n;
                Ok(s)
            },
            None => Err(WireError::InvalidUtf8),
        }
    }

    /// Reads a long string: a `u32` length and that many bytes.
    pub fn read_longstr(&mut self) -> (r: Result<Vec<u8>, WireError>)
        requires
            old(self).pos <= old(self).data@.len(),
        ensures
            final(self).data == old(self).data,
            final(self).pos <= final(self).data@.len(),
            ({
                let rest = old(self).rest();
                let n = from_be32(rest.subrange(0, 4)) as int;
                &&& rest.len() < 4 || rest.len() < 4 + n ==> r == Err::<Vec<u8>, WireError>(
                    WireError::UnexpectedEof,
                ) && final(self).pos == old(self).pos
                &&& rest.len() >= 4 + n ==> (r matches Ok(v) && v@ == rest.subrange(4, 4 + n))
                    && final(self).pos == old(self).pos + 4 + n
            }),
    {
        let ghost rest = self.rest();
        if self.data.len() - self.pos < 4 {
            return Err(WireError::UnexpectedEof);
        }
        let n = get_u32(self.data, self.pos) as usize;
        assert(self.data@.subrange(self.pos as int, self.pos + 4) =~= rest.subrange(0, 4));
        if self.data.len() - self.pos - 4 < n {
            return Err(WireError::UnexpectedEof);
        }
        let start = self.pos + 4;
        let v = copy_range(self.data, start, start + n);
        assert(v@ =~= rest.subrange(4, 4 + n));
        self.pos = start + n;
        Ok(v)
    }
}

} // verus!
