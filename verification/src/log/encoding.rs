//! Canonical framing of encoded values: each value travels as a four-byte
//! big-endian length followed by that many bytes.
use vstd::prelude::*;

verus! {

/// An encoding error.
#[derive(Debug, Clone, Copy, PartialEq, Eq, Structural)]
pub enum EncodeError {
    BufferTooSmall,
}

impl EncodeError {
    /// The error message.
    pub fn to_string(&self) -> (s: String)
        ensures
            s@ == "Buffer too small for encoded data"@,
    {
        "Buffer too small for encoded data".to_owned()
    }
}

/// A decoding error.
#[derive(Debug, Clone, Copy, PartialEq, Eq, Structural)]
pub enum DecodeError {
    InvalidEncoding,
}

impl DecodeError {
    /// The error message.
    pub fn to_string(&self) -> (s: String)
        ensures
            s@ == "Invalid canonical encoding"@,
    {
        "Invalid canonical encoding".to_owned()
    }
}

/// The four big-endian bytes of `n`.
pub open spec fn be_bytes(n: u32) -> Seq<u8> {
    seq![(n / 0x100_0000) as u8, ((n / 0x1_0000) % 0x100) as u8, ((n / 0x100) % 0x100) as u8, (n % 0x100) as u8]
}

/// The value of four big-endian bytes.
pub open spec fn be_value(b: Seq<u8>) -> nat {
    b[0] as nat * 0x100_0000 + b[1] as nat * 0x1_0000 + b[2] as nat * 0x100 + b[3] as nat
}

/// The frame of `payload`: its length, cut to 32 bits, in four big-endian
/// bytes, then the payload.
pub open spec fn spec_frame(payload: Seq<u8>) -> Seq<u8> {
    be_bytes((payload.len() % 0x1_0000_0000) as u32) + payload
}

/// The frame of `payload`.
pub fn frame(payload: &[u8]) -> (v: Vec<u8>)
    ensures
        v@ == spec_frame(payload@),
{
    let n: u32 = ((payload.len() as u64) % 0x1_0000_0000u64) as u32;
    let mut v: Vec<u8> = Vec::new();
    v.push((n / 0x100_0000) as u8);
    v.push(((n / 0x1_0000) % 0x100) as u8);
    v.push(((n / 0x100) % 0x100) as u8);
    v.push((n % 0x100) as u8);
    let mut i: usize = 0;
    while i < payload.len()
        invariant
            i <= payload@.len(),
            v@ == be_bytes(n) + payload@.take(i as int),
            n == (payload@.len() % 0x1_0000_0000) as u32,
        decreases payload@.len() - i,
    {
        v.push(payload[i]);
        i = i + 1;
        assert(v@ =~= be_bytes(n) + payload@.take(i as int));
    }
    assert(payload@.take(i as int) =~= payload@);
    v
}

/// What reading one frame from the front of `buf` gives: nothing at the
/// end of the input; an error when fewer than four length bytes or fewer
/// payload bytes than the length remain; else the payload and the number of
/// bytes the frame took.
pub open spec fn spec_read_frame(buf: Seq<u8>) -> Result<Option<(Seq<u8>, nat)>, DecodeError> {
    if buf.len() == 0 {
        Ok(None)
    } else if buf.len() < 4 {
        Err(DecodeError::InvalidEncoding)
    } else if buf.len() < 4 + be_value(buf) {
        Err(DecodeError::InvalidEncoding)
    } else {
        Ok(Some((buf.subrange(4, 4 + be_value(buf) as int), 4 + be_value(buf))))
    }
}

/// Reads one frame from the front of `buf`.
pub fn read_frame(buf: &[u8]) -> (r: Result<Option<(Vec<u8>, usize)>, DecodeError>)
    ensures
        match spec_read_frame(buf@) {
            Ok(None) => r == Ok::<Option<(Vec<u8>, usize)>, DecodeError>(None),
            Ok(Some((p, n))) => r matches Ok(Some((q, m))) && q@ == p && m == n,
            Err(e) => r == Err::<Option<(Vec<u8>, usize)>, DecodeError>(e),
        },
{
    if buf.len() == 0 {
        return Ok(None);
    }
    if buf.len() < 4 {
        return Err(DecodeError::InvalidEncoding);
    }
    let len: u64 = buf[0] as u64 * 0x100_0000 + buf[1] as u64 * 0x1_0000 + buf[2] as u64 * 0x100 + buf[3] as u64;
    if (buf.len() as u64) < 4 + len {
        return Err(DecodeError::InvalidEncoding);
    }
    let end: usize = (4 + len) as usize;
    let mut p: Vec<u8> = Vec::new();
    let mut i: usize = 4;
    while i < end
        invariant
            4 <= i <= end,
            end <= buf@.len(),
            p@ == buf@.subrange(4, i as int),
        decreases end - i,
    {
        p.push(buf[i]);
        i = i + 1;
        assert(p@ =~= buf@.subrange(4, i as int));
    }
    Ok(Some((p, end)))
}

/// Frame reading undoes framing: the frame of a payload shorter than 2^32
/// bytes, followed by anything, reads back as that payload and the frame's
/// length.
pub proof fn lemma_frame_roundtrip(payload: Seq<u8>, rest: Seq<u8>)
    requires
        payload.len() < 0x1_0000_0000,
    ensures
        spec_read_frame(spec_frame(payload) + rest) == Ok::<Option<(Seq<u8>, nat)>, DecodeError>(
            Some((payload, 4 + payload.len())),
        ),
{
    let n = payload.len() as u32;
    let b = spec_frame(payload) + rest;
    assert(b[0] == (n / 0x100_0000) as u8);
    assert(b[1] == ((n / 0x1_0000) % 0x100) as u8);
    assert(b[2] == ((n / 0x100) % 0x100) as u8);
    assert(b[3] == (n % 0x100) as u8);
    assert(be_value(b) == n) by (nonlinear_arith)
        requires
            b[0] == (n / 0x100_0000) as u8,
            b[1] == ((n / 0x1_0000) % 0x100) as u8,
            b[2] == ((n / 0x100) % 0x100) as u8,
            b[3] == (n % 0x100) as u8,
            be_value(b) == b[0] as nat * 0x100_0000 + b[1] as nat * 0x1_0000 + b[2] as nat * 0x100 + b[3] as nat,
    ;
    assert(b.subrange(4, 4 + payload.len() as int) =~= payload);
}

/// An encoder that frames values onto a writer.
pub struct CanonicalEncoder<W> {
    writer: W,
}

impl<W> CanonicalEncoder<W> {
    /// An encoder onto `writer`.
    pub fn new(writer: W) -> (e: Self)
        ensures
            e.writer_spec() == writer,
    {
        CanonicalEncoder { writer }
    }

    /// The writer.
    pub closed spec fn writer_spec(&self) -> W {
        self.writer
    }

    /// The writer, for writing a frame.
    pub fn writer_mut(&mut self) -> (w: &mut W)
        ensures
            *w == old(self).writer_spec(),
            final(self).writer_spec() == *final(w),
    {
        &mut self.writer
    }

    /// Gives the writer back.
    pub fn into_inner(self) -> (w: W)
        ensures
            w == self.writer_spec(),
    {
        self.writer
    }
}

/// A decoder that reads framed values from a reader.
pub struct CanonicalDecoder<R> {
    reader: R,
}

impl<R> CanonicalDecoder<R> {
    /// A decoder from `reader`.
    pub fn new(reader: R) -> (d: Self)
        ensures
            d.reader_spec() == reader,
    {
        CanonicalDecoder { reader }
    }

    /// The reader.
    pub closed spec fn reader_spec(&self) -> R {
        self.reader
    }

    /// The reader, for reading a frame.
    pub fn reader_mut(&mut self) -> (r: &mut R)
        ensures
            *r == old(self).reader_spec(),
            final(self).reader_spec() == *final(r),
    {
        &mut self.reader
    }

    /// Gives the reader back.
    pub fn into_inner(self) -> (r: R)
        ensures
            r == self.reader_spec(),
    {
        self.reader
    }
}

} // verus!
