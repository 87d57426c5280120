//! A sequential cursor over a reply buffer and its primitive decoders.

use vstd::prelude::*;
use vstd::slice::slice_subrange;
use vstd::slice::slice_to_vec;

verus! {

/// Why a decode could not finish.
#[derive(Debug, Clone, Copy, PartialEq, Eq, Structural)]
pub enum DecodeError {
    /// A read would have gone past the end of the buffer.
    ShortRead,
    /// A name that must be strict UTF-8 was not.
    InvalidUtf8,
}

/// Little-endian value of two bytes.
pub open spec fn le16(b0: u8, b1: u8) -> int {
    b0 as int + 256 * b1 as int
}

/// Little-endian unsigned value of four bytes.
pub open spec fn le32(b0: u8, b1: u8, b2: u8, b3: u8) -> int {
    b0 as int + 256 * b1 as int + 65536 * b2 as int + 16777216 * b3 as int
}

/// The two's-complement reading of an unsigned 32-bit value.
pub open spec fn signed32(u: int) -> int {
    if u < 0x8000_0000 {
        u
    } else {
        u - 0x1_0000_0000
    }
}

/// One byte at `p`.
pub open spec fn spec_read_u8(s: Seq<u8>, p: int) -> Result<(u8, int), DecodeError> {
    if 0 <= p && p + 1 <= s.len() {
        Ok((s[p], p + 1))
    } else {
        Err(DecodeError::ShortRead)
    }
}

/// A little-endian `u16` at `p`.
pub open spec fn spec_read_u16(s: Seq<u8>, p: int) -> Result<(u16, int), DecodeError> {
    if 0 <= p && p + 2 <= s.len() {
        Ok((le16(s[p], s[p + 1]) as u16, p + 2))
    } else {
        Err(DecodeError::ShortRead)
    }
}

/// A little-endian `u32` at `p`.
pub open spec fn spec_read_u32(s: Seq<u8>, p: int) -> Result<(u32, int), DecodeError> {
    if 0 <= p && p + 4 <= s.len() {
        Ok((le32(s[p], s[p + 1], s[p + 2], s[p + 3]) as u32, p + 4))
    } else {
        Err(DecodeError::ShortRead)
    }
}

/// A little-endian two's-complement `i32` at `p`.
pub open spec fn spec_read_i32(s: Seq<u8>, p: int) -> Result<(i32, int), DecodeError> {
    if 0 <= p && p + 4 <= s.len() {
        Ok((signed32(le32(s[p], s[p + 1], s[p + 2], s[p + 3])) as i32, p + 4))
    } else {
        Err(DecodeError::ShortRead)
    }
}

/// `n` raw bytes at `p`.
pub open spec fn spec_read_bytes(s: Seq<u8>, p: int, n: int) -> Result<(Seq<u8>, int), DecodeError> {
    if 0 <= p && 0 <= n && p + n <= s.len() {
        Ok((s.subrange(p, p + n), p + n))
    } else {
        Err(DecodeError::ShortRead)
    }
}

/// Index of the first zero byte at or after `p`, if there is one.
pub open spec fn find_zero(s: Seq<u8>, p: int) -> Option<int>
    decreases s.len() - p,
{
    if p < 0 || p >= s.len() {
        None
    } else if s[p] == 0 {
        Some(p)
    } else {
        find_zero(s, p + 1)
    }
}

/// The bytes before the next zero byte, which is consumed as well; without
/// a zero byte ahead the read falls short.
pub open spec fn spec_read_cstr(s: Seq<u8>, p: int) -> Result<(Seq<u8>, int), DecodeError> {
    match find_zero(s, p) {
        Some(z) => Ok((s.subrange(p, z), z + 1)),
        None => Err(DecodeError::ShortRead),
    }
}

/// What `String::from_utf8_lossy` makes of a byte sequence.
pub uninterp spec fn lossy_utf8(b: Seq<u8>) -> Seq<char>;

/// What `String::from_utf8` makes of a byte sequence: the text, or nothing
/// where the bytes are not UTF-8.
pub uninterp spec fn strict_utf8(b: Seq<u8>) -> Option<Seq<char>>;

/// A terminated string at `p`, decoded leniently.
pub open spec fn spec_read_str(s: Seq<u8>, p: int) -> Result<(Seq<char>, int), DecodeError> {
    match spec_read_cstr(s, p) {
        Ok((b, q)) => Ok((lossy_utf8(b), q)),
        Err(e) => Err(e),
    }
}

/// Relies on `String::from_utf8_lossy`: the text of `b`, with invalid
/// sequences replaced by a placeholder character.
#[verifier::external_body]
pub(crate) fn decode_lossy(b: &[u8]) -> (r: String)
    ensures
        r@ == lossy_utf8(b@),
{
    String::from_utf8_lossy(b).into_owned()
}

/// Relies on `String::from_utf8`: the text of `b` where `b` is UTF-8,
/// nothing otherwise.
#[verifier::external_body]
pub(crate) fn decode_strict(b: Vec<u8>) -> (r: Option<String>)
    ensures
        match r {
            Some(t) => strict_utf8(b@) == Some(t@),
            None => strict_utf8(b@) is None,
        },
{
    String::from_utf8(b).ok()
}

/// Relies on byteorder's `LittleEndian::read_u32`: the first four bytes of
/// `b`, least significant first (it panics on fewer than four).
#[verifier::external_body]
pub(crate) fn le_u32_of(b: &[u8]) -> (r: u32)
    requires
        b@.len() >= 4,
    ensures
        r as int == le32(b@[0], b@[1], b@[2], b@[3]),
{
    <byteorder::LittleEndian as byteorder::ByteOrder>::read_u32(b)
}

/// A byte buffer with a read position.
pub struct Cursor {
    buf: Vec<u8>,
    pos: usize,
}

impl Cursor {
    /// The whole buffer.
    pub closed spec fn data(&self) -> Seq<u8> {
        self.buf@
    }

    /// The read position.
    pub closed spec fn pos(&self) -> int {
        self.pos as int
    }

    /// A cursor at the start of `buf`.
    pub fn new(buf: Vec<u8>) -> (r: Cursor)
        ensures
            r.data() == buf@,
            r.pos() == 0,
    {
        Cursor { buf, pos: 0 }
    }

    /// The whole buffer, whatever has been read of it.
    pub fn get_ref(&self) -> (r: &Vec<u8>)
        ensures
            r@ == self.data(),
    {
        &self.buf
    }

    /// The read position.
    pub fn position(&self) -> (r: usize)
        ensures
            r as int == self.pos(),
    {
        self.pos
    }
}

/// What pretty-hex's `pretty_hex` prints for a byte sequence.
pub uninterp spec fn hex_dump_of(b: Seq<u8>) -> Seq<char>;

/// Relies on pretty-hex's `pretty_hex`: a multi-line dump of `b` with
/// offsets, hex digits and printable characters.
#[verifier::external_body]
fn pretty_dump(b: &Vec<u8>) -> (r: String)
    ensures
        r@ == hex_dump_of(b@),
{
    pretty_hex::pretty_hex(b)
}

/// A packet's bytes with the position up to which they have been decoded.
pub struct PacketBytes {
    cursor: Cursor,
}

impl PacketBytes {
    /// The whole buffer.
    pub closed spec fn data(&self) -> Seq<u8> {
        self.cursor.data()
    }

    /// The read position.
    pub closed spec fn pos(&self) -> int {
        self.cursor.pos()
    }

    /// The bytes of a received datagram, to be read from the start.
    pub fn new(bytes: Vec<u8>) -> (r: PacketBytes)
        ensures
            r.data() == bytes@,
            r.pos() == 0,
    {
        PacketBytes { cursor: Cursor::new(bytes) }
    }

    /// The cursor over the bytes.
    pub fn cursor(&self) -> (r: &Cursor)
        ensures
            r.data() == self.data(),
            r.pos() == self.pos(),
    {
        &self.cursor
    }

    /// A readable dump of the whole buffer, for diagnostics.
    pub fn hex_dump(&self) -> (r: String)
        ensures
            r@ == hex_dump_of(self.data()),
    {
        pretty_dump(&self.cursor.buf)
    }

    /// Whether `n` more bytes can be read.
    fn has(&self, n: usize) -> (r: bool)
        ensures
            r == (self.pos() + n <= self.data().len()),
            r == (self.cursor.pos + n <= self.cursor.buf.len()),
    {
        self.cursor.pos <= self.cursor.buf.len() && n <= self.cursor.buf.len() - self.cursor.pos
    }

    /// Reads one byte.
    pub fn read_u8(&mut self) -> (r: Result<u8, DecodeError>)
        ensures
            final(self).data() == old(self).data(),
            match spec_read_u8(old(self).data(), old(self).pos()) {
                Ok((v, q)) => r == Ok::<u8, DecodeError>(v) && final(self).pos() == q,
                Err(e) => r == Err::<u8, DecodeError>(e) && final(self).pos() == old(self).pos(),
            },
    {
        if !self.has(1) {
            return Err(DecodeError::ShortRead);
        }
        let v = self.cursor.buf[self.cursor.pos];
        self.cursor.pos = self.cursor.pos + 1;
        Ok(v)
    }

    /// Reads a little-endian `u16`.
    pub fn read_u16(&mut self) -> (r: Result<u16, DecodeError>)
        ensures
            final(self).data() == old(self).data(),
            match spec_read_u16(old(self).data(), old(self).pos()) {
                Ok((v, q)) => r == Ok::<u16, DecodeError>(v) && final(self).pos() == q,
                Err(e) => r == Err::<u16, DecodeError>(e) && final(self).pos() == old(self).pos(),
            },
    {
        if !self.has(2) {
            return Err(DecodeError::ShortRead);
        }
        let p = self.cursor.pos;
        let v = self.cursor.buf[p] as u16 + 256 * (self.cursor.buf[p + 1] as u16);
        self.cursor.pos = p + 2;
        Ok(v)
    }

    /// Reads a little-endian `u32`.
    pub fn read_u32(&mut self) -> (r: Result<u32, DecodeError>)
        ensures
            final(self).data() == old(self).data(),
            match spec_read_u32(old(self).data(), old(self).pos()) {
                Ok((v, q)) => r == Ok::<u32, DecodeError>(v) && final(self).pos() == q,
                Err(e) => r == Err::<u32, DecodeError>(e) && final(self).pos() == old(self).pos(),
            },
    {
        if !self.has(4) {
            return Err(DecodeError::ShortRead);
        }
        let p = self.cursor.pos;
        let v = le_u32_of(slice_subrange(self.cursor.buf.as_slice(), p, p + 4));
        self.cursor.pos = p + 4;
        Ok(v)
    }

    /// Reads a little-endian two's-complement `i32`.
    pub fn read_i32(&mut self) -> (r: Result<i32, DecodeError>)
        ensures
            final(self).data() == old(self).data(),
            match spec_read_i32(old(self).data(), old(self).pos()) {
                Ok((v, q)) => r == Ok::<i32, DecodeError>(v) && final(self).pos() == q,
                Err(e) => r == Err::<i32, DecodeError>(e) && final(self).pos() == old(self).pos(),
            },
    {
        if !self.has(4) {
            return Err(DecodeError::ShortRead);
        }
        let p = self.cursor.pos;
        let b = &self.cursor.buf;
        let lo: i32 = b[p] as i32 + 256 * (b[p + 1] as i32) + 65536 * (b[p + 2] as i32);
        let v: i32 = if b[p + 3] < 128 {
            lo + 16777216 * (b[p + 3] as i32)
        } else {
            lo + 16777216 * ((b[p + 3] as i32) - 256)
        };
        self.cursor.pos = p + 4;
        Ok(v)
    }

    /// Reads the four bytes of a little-endian `f32` as its bit pattern.
    pub fn read_f32_bits(&mut self) -> (r: Result<u32, DecodeError>)
        ensures
            final(self).data() == old(self).data(),
            match spec_read_u32(old(self).data(), old(self).pos()) {
                Ok((v, q)) => r == Ok::<u32, DecodeError>(v) && final(self).pos() == q,
                Err(e) => r == Err::<u32, DecodeError>(e) && final(self).pos() == old(self).pos(),
            },
    {
        self.read_u32()
    }

    /// Moves past `n` bytes.
    pub fn skip(&mut self, n: usize) -> (r: Result<(), DecodeError>)
        ensures
            final(self).data() == old(self).data(),
            match spec_read_bytes(old(self).data(), old(self).pos(), n as int) {
                Ok((_, q)) => r is Ok && final(self).pos() == q,
                Err(e) => r == Err::<(), DecodeError>(e) && final(self).pos() == old(self).pos(),
            },
    {
        if !self.has(n) {
            return Err(DecodeError::ShortRead);
        }
        self.cursor.pos = self.cursor.pos + n;
        Ok(())
    }

    /// Reads `n` raw bytes.
    pub fn read_bytes(&mut self, n: usize) -> (r: Result<Vec<u8>, DecodeError>)
        ensures
            final(self).data() == old(self).data(),
            match spec_read_bytes(old(self).data(), old(self).pos(), n as int) {
                Ok((v, q)) => r matches Ok(w) && w@ == v && final(self).pos() == q,
                Err(e) => r matches Err(f) && f == e && final(self).pos() == old(self).pos(),
            },
    {
        if !self.has(n) {
            return Err(DecodeError::ShortRead);
        }
        let p = self.cursor.pos;
        let v = slice_to_vec(slice_subrange(self.cursor.buf.as_slice(), p, p + n));
        self.cursor.pos = p + n;
        Ok(v)
    }

    /// Reads the bytes up to the next zero byte and consumes that byte.
    pub fn read_until_zero(&mut self) -> (r: Result<Vec<u8>, DecodeError>)
        ensures
            final(self).data() == old(self).data(),
            match spec_read_cstr(old(self).data(), old(self).pos()) {
                Ok((v, q)) => r matches Ok(w) && w@ == v && final(self).pos() == q,
                Err(e) => r matches Err(f) && f == e && final(self).pos() == old(self).pos(),
            },
    {
        let ghost s = self.data();
        let start = self.cursor.pos;
        let len = self.cursor.buf.len();
        if start > len {
            return Err(DecodeError::ShortRead);
        }
        let mut j: usize = start;
        while j < len && self.cursor.buf[j] != 0
            invariant
                start <= j <= len,
                len == s.len(),
                s == self.data(),
                self.pos() == start,
                find_zero(s, start as int) == find_zero(s, j as int),
            decreases len - j,
        {
            j = j + 1;
        }
        if j == len {
            return Err(DecodeError::ShortRead);
        }
        let v = slice_to_vec(slice_subrange(self.cursor.buf.as_slice(), start, j));
        self.cursor.pos = j + 1;
        Ok(v)
    }

    /// Reads a terminated string, replacing invalid UTF-8 by a placeholder.
    pub fn read_str(&mut self) -> (r: Result<String, DecodeError>)
        ensures
            final(self).data() == old(self).data(),
            match spec_read_str(old(self).data(), old(self).pos()) {
                Ok((v, q)) => r matches Ok(w) && w@ == v && final(self).pos() == q,
                Err(e) => r matches Err(f) && f == e && final(self).pos() == old(self).pos(),
            },
    {
        let b = self.read_until_zero()?;
        Ok(decode_lossy(b.as_slice()))
    }
}

} // verus!
