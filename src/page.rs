use vstd::prelude::*;
use vstd::utf8::{decode_utf8, encode_utf8, valid_utf8};

verus! {

/// `buf` after writing `bs` at offset `pos`: bytes under the written range are
/// replaced, and the buffer grows where the range runs past its end.
pub open spec fn overwrite(buf: Seq<u8>, pos: int, bs: Seq<u8>) -> Seq<u8> {
    if pos + bs.len() <= buf.len() {
        buf.take(pos) + bs + buf.skip(pos + bs.len())
    } else {
        buf.take(pos) + bs
    }
}

/// Big-endian two's-complement encoding of a 32-bit integer.
pub open spec fn int_bytes(v: i32) -> Seq<u8> {
    let u = v as u32;
    seq![(u >> 24u32) as u8, (u >> 16u32) as u8, (u >> 8u32) as u8, u as u8]
}

/// The 32-bit integer whose big-endian encoding is `b0 b1 b2 b3`.
pub open spec fn int_of_bytes(b0: u8, b1: u8, b2: u8, b3: u8) -> i32 {
    (((b0 as u32) << 24u32) | ((b1 as u32) << 16u32) | ((b2 as u32) << 8u32) | (b3 as u32)) as i32
}

/// The integer encoded by the four bytes of `bs` starting at `at`.
pub open spec fn int_at(bs: Seq<u8>, at: int) -> i32 {
    int_of_bytes(bs[at], bs[at + 1], bs[at + 2], bs[at + 3])
}

/// Encoding of a string: its UTF-8 byte length as a big-endian 32-bit
/// integer, then the UTF-8 bytes themselves.
pub open spec fn str_bytes(s: Seq<char>) -> Seq<u8> {
    int_bytes(encode_utf8(s).len() as i32) + encode_utf8(s)
}

/// Why a read from a page produced no value.
#[derive(Debug, Clone, Copy, PartialEq, Eq, Structural)]
pub enum PageError {
    /// Fewer bytes remain after the cursor than the value needs.
    NoValue,
    /// The bytes of a string are not valid UTF-8.
    InvalidEncoding,
}

/// A byte buffer with one cursor, read and written through a fixed binary
/// encoding.
pub struct Page {
    bytebuffer: Vec<u8>,
    pos: usize,
}

impl Page {
    /// The cursor lies within the content or right at its end.
    pub closed spec fn well_formed(&self) -> bool {
        self.pos <= self.bytebuffer.len()
    }

    /// The buffer's logical content.
    pub closed spec fn bytes(&self) -> Seq<u8> {
        self.bytebuffer@
    }

    /// The cursor: the index of the next byte read or written.
    pub closed spec fn cursor(&self) -> int {
        self.pos as int
    }

    /// A page of `capacity` zero bytes, with the cursor at the start.
    pub fn new(capacity: usize) -> (r: Page)
        ensures
            r.bytes() == Seq::new(capacity as nat, |i: int| 0u8),
            r.cursor() == 0,
            r.well_formed(),
    {
        let r = Page { bytebuffer: vec![0u8; capacity], pos: 0 };
        assert(r.bytebuffer@ =~= Seq::new(capacity as nat, |i: int| 0u8));
        r
    }

    /// Writes one byte at the cursor, overwriting the byte there or appending
    /// it at the end, and advances the cursor by one.
    pub fn write_byte(&mut self, value: u8)
        requires
            old(self).well_formed(),
        ensures
            final(self).well_formed(),
            final(self).bytes() == overwrite(old(self).bytes(), old(self).cursor(), seq![value]),
            final(self).cursor() == old(self).cursor() + 1,
    {
        let ghost before = self.bytebuffer@;
        if self.pos < self.bytebuffer.len() {
            self.bytebuffer.set(self.pos, value);
        } else {
            self.bytebuffer.push(value);
        }
        let len = self.bytebuffer.len();
        assert(self.pos < len);
        self.pos = self.pos + 1;
        assert(self.bytebuffer@ =~= overwrite(before, old(self).pos as int, seq![value]));
    }

    /// Writes the bytes of `bytes` in order, each as `write_byte` does.
    pub fn write_bytes(&mut self, bytes: &[u8])
        requires
            old(self).well_formed(),
        ensures
            final(self).well_formed(),
            final(self).bytes() == overwrite(old(self).bytes(), old(self).cursor(), bytes@),
            final(self).cursor() == old(self).cursor() + bytes@.len(),
    {
        let mut i: usize = 0;
        while i < bytes.len()
            invariant
                0 <= i <= bytes@.len(),
                old(self).well_formed(),
                self.well_formed(),
                self.bytes() == overwrite(old(self).bytes(), old(self).cursor(), bytes@.take(i as int)),
                self.cursor() == old(self).cursor() + i,
            decreases bytes@.len() - i,
        {
            proof {
                lemma_overwrite_concat(
                    old(self).bytes(),
                    old(self).cursor(),
                    bytes@.take(i as int),
                    seq![bytes@[i as int]],
                );
                assert(bytes@.take(i as int) + seq![bytes@[i as int]] =~= bytes@.take(i + 1));
            }
            self.write_byte(bytes[i]);
            i = i + 1;
        }
        assert(bytes@.take(i as int) =~= bytes@);
    }
    /// Writes `value` as four big-endian two's-complement bytes at the cursor.
    pub fn write_int(&mut self, value: i32)
        requires
            old(self).well_formed(),
        ensures
            final(self).well_formed(),
            final(self).bytes() == overwrite(old(self).bytes(), old(self).cursor(), int_bytes(value)),
            final(self).cursor() == old(self).cursor() + 4,
    {
        let u = value as u32;
        let bytes: Vec<u8> = vec![(u >> 24u32) as u8, (u >> 16u32) as u8, (u >> 8u32) as u8, u as u8];
        assert(bytes@ =~= int_bytes(value));
        self.write_bytes(bytes.as_slice());
    }

    /// Writes the UTF-8 byte length of `value` as a big-endian 32-bit integer,
    /// then its UTF-8 bytes. The length is taken modulo 2^32 as a
    /// two's-complement integer, so a string of more than `i32::MAX` bytes
    /// does not read back.
    pub fn write_str(&mut self, value: &str)
        requires
            old(self).well_formed(),
        ensures
            final(self).well_formed(),
            final(self).bytes() == overwrite(old(self).bytes(), old(self).cursor(), str_bytes(value@)),
            final(self).cursor() == old(self).cursor() + str_bytes(value@).len(),
    {
        let bytes = value.as_bytes();
        let len = bytes.len() as i32;
        self.write_int(len);
        self.write_bytes(bytes);
        proof {
            lemma_overwrite_concat(old(self).bytes(), old(self).cursor(), int_bytes(len), bytes@);
        }
    }

    /// Moves the cursor back to the start; the content is left as it is.
    pub fn flip(&mut self)
        requires
            old(self).well_formed(),
        ensures
            final(self).well_formed(),
            final(self).bytes() == old(self).bytes(),
            final(self).cursor() == 0,
    {
        self.pos = 0;
    }

    /// Reads the byte at the cursor and advances past it; `None`, with the
    /// cursor unmoved, when the cursor is at the end.
    pub fn read_byte(&mut self) -> (r: Option<u8>)
        requires
            old(self).well_formed(),
        ensures
            final(self).well_formed(),
            final(self).bytes() == old(self).bytes(),
            old(self).cursor() < old(self).bytes().len() ==> r == Some(old(self).bytes()[old(self).cursor()])
                && final(self).cursor() == old(self).cursor() + 1,
            old(self).cursor() >= old(self).bytes().len() ==> r is None && final(self).cursor()
                == old(self).cursor(),
    {
        if self.pos >= self.bytebuffer.len() {
            return None;
        }
        let value = self.bytebuffer[self.pos];
        self.pos = self.pos + 1;
        Some(value)
    }

    /// Reads a big-endian 32-bit integer at the cursor and advances past it;
    /// `None`, with the cursor unmoved, when fewer than four bytes remain.
    pub fn read_int(&mut self) -> (r: Option<i32>)
        requires
            old(self).well_formed(),
        ensures
            final(self).well_formed(),
            final(self).bytes() == old(self).bytes(),
            old(self).cursor() + 4 <= old(self).bytes().len() ==> r == Some(int_at(old(self).bytes(), old(self).cursor()))
                && final(self).cursor() == old(self).cursor() + 4,
            old(self).cursor() + 4 > old(self).bytes().len() ==> r is None && final(self).cursor()
                == old(self).cursor(),
    {
        if self.bytebuffer.len() - self.pos < 4 {
            return None;
        }
        let b0 = self.bytebuffer[self.pos];
        let b1 = self.bytebuffer[self.pos + 1];
        let b2 = self.bytebuffer[self.pos + 2];
        let b3 = self.bytebuffer[self.pos + 3];
        self.pos = self.pos + 4;
        Some((((b0 as u32) << 24u32) | ((b1 as u32) << 16u32) | ((b2 as u32) << 8u32) | (b3 as u32)) as i32)
    }

    /// Reads a length-prefixed UTF-8 string at the cursor.
    ///
    /// `NoValue` when fewer than four bytes remain (cursor unmoved), or when
    /// the length read is negative or longer than what follows it (cursor
    /// past the length). Otherwise the cursor moves past the string's bytes,
    /// and the result is the decoded string, or `InvalidEncoding` when the
    /// bytes are not valid UTF-8.
    pub fn read_str(&mut self) -> (r: Result<String, PageError>)
        requires
            old(self).well_formed(),
        ensures
            final(self).well_formed(),
            final(self).bytes() == old(self).bytes(),
            old(self).cursor() + 4 > old(self).bytes().len() ==> r == Err::<String, PageError>(
                PageError::NoValue,
            ) && final(self).cursor() == old(self).cursor(),
            old(self).cursor() + 4 <= old(self).bytes().len() && (int_at(old(self).bytes(), old(self).cursor()) < 0
                || old(self).cursor() + 4 + int_at(old(self).bytes(), old(self).cursor()) > old(self).bytes().len())
                ==> r == Err::<String, PageError>(PageError::NoValue) && final(self).cursor() == old(self).cursor() + 4,
            old(self).cursor() + 4 <= old(self).bytes().len() && 0 <= int_at(old(self).bytes(), old(self).cursor())
                && old(self).cursor() + 4 + int_at(old(self).bytes(), old(self).cursor()) <= old(self).bytes().len()
                ==> ({
                let text = old(self).bytes().subrange(
                    old(self).cursor() + 4,
                    old(self).cursor() + 4 + int_at(old(self).bytes(), old(self).cursor()),
                );
                &&& final(self).cursor() == old(self).cursor() + 4 + int_at(old(self).bytes(), old(self).cursor())
                &&& valid_utf8(text) ==> (r matches Ok(s) && s@ == decode_utf8(text))
                &&& !valid_utf8(text) ==> r == Err::<String, PageError>(PageError::InvalidEncoding)
            }),
    {
        let n = match self.read_int() {
            Some(n) => n,
            None => return Err(PageError::NoValue),
        };
        if n < 0 || self.bytebuffer.len() - self.pos < n as usize {
            return Err(PageError::NoValue);
        }
        let end = self.pos + n as usize;
        let text = vstd::slice::slice_subrange(self.bytebuffer.as_slice(), self.pos, end);
        self.pos = end;
        match decode_text(text) {
            Some(s) => Ok(s),
            None => Err(PageError::InvalidEncoding),
        }
    }

    /// Replaces the content with `bytes` and leaves the cursor at its end.
    pub fn replace_contents(&mut self, bytes: Vec<u8>)
        ensures
            final(self).well_formed(),
            final(self).bytes() == bytes@,
            final(self).cursor() == bytes@.len(),
    {
        let len = bytes.len();
        self.bytebuffer = bytes;
        self.pos = len;
    }

    /// The buffer's content.
    pub fn bytebuffer(&self) -> (r: &Vec<u8>)
        ensures
            r@ == self.bytes(),
    {
        &self.bytebuffer
    }
}

/// Relies on std::str::from_utf8: it accepts exactly the valid UTF-8 byte
/// sequences, and yields the characters that they encode.
#[verifier::external_body]
fn decode_text(bytes: &[u8]) -> (r: Option<String>)
    ensures
        r is Some <==> valid_utf8(bytes@),
        r matches Some(s) ==> s@ == decode_utf8(bytes@),
{
    std::str::from_utf8(bytes).ok().map(|s| s.to_string())
}

/// Writing `a` and then `b` right after it is writing `a + b`.
proof fn lemma_overwrite_concat(buf: Seq<u8>, pos: int, a: Seq<u8>, b: Seq<u8>)
    requires
        0 <= pos <= buf.len(),
    ensures
        overwrite(overwrite(buf, pos, a), pos + a.len(), b) == overwrite(buf, pos, a + b),
{
    let mid = overwrite(buf, pos, a);
    assert(mid.take(pos + a.len()) =~= buf.take(pos) + a);
    assert(overwrite(mid, pos + a.len(), b) =~= overwrite(buf, pos, a + b));
}

/// The bytes written at a cursor stand there afterwards, in order: after
/// `write_bytes(bs)` on a page whose cursor is at `at`, a `flip` and reads
/// byte by byte from `at` yield `bs`.
pub proof fn lemma_written_bytes_read_back(buf: Seq<u8>, at: int, bs: Seq<u8>)
    requires
        0 <= at <= buf.len(),
    ensures
        overwrite(buf, at, bs).len() >= at + bs.len(),
        overwrite(buf, at, bs).subrange(at, at + bs.len()) == bs,
{
    assert(overwrite(buf, at, bs).subrange(at, at + bs.len()) =~= bs);
}

/// Decoding the encoding of any 32-bit integer gives it back.
pub proof fn lemma_int_bytes_round_trip(v: i32)
    ensures
        int_at(int_bytes(v), 0) == v,
{
    let u = v as u32;
    assert(((((u >> 24u32) as u8) as u32) << 24u32 | (((u >> 16u32) as u8) as u32) << 16u32 | (((u
        >> 8u32) as u8) as u32) << 8u32 | ((u as u8) as u32)) == u) by (bit_vector);
    assert((v as u32) as i32 == v) by (bit_vector);
}

/// An integer written at a cursor reads back unchanged from that cursor:
/// `write_int(v)`, then `flip` and `read_int` from the same place, give `v`.
pub proof fn lemma_written_int_reads_back(buf: Seq<u8>, at: int, v: i32)
    requires
        0 <= at <= buf.len(),
    ensures
        overwrite(buf, at, int_bytes(v)).len() >= at + 4,
        int_at(overwrite(buf, at, int_bytes(v)), at) == v,
{
    lemma_written_bytes_read_back(buf, at, int_bytes(v));
    lemma_int_bytes_round_trip(v);
    let after = overwrite(buf, at, int_bytes(v));
    assert(after[at] == int_bytes(v)[0]);
    assert(after[at + 1] == int_bytes(v)[1]);
    assert(after[at + 2] == int_bytes(v)[2]);
    assert(after[at + 3] == int_bytes(v)[3]);
}

/// A string written at a cursor reads back unchanged from that cursor:
/// after `write_str(s)`, the length read there is the UTF-8 length of `s`,
/// the bytes that follow are all present, valid UTF-8, and decode to `s`.
/// This needs the UTF-8 length to fit the 32-bit length prefix.
pub proof fn lemma_written_str_reads_back(buf: Seq<u8>, at: int, s: Seq<char>)
    requires
        0 <= at <= buf.len(),
        encode_utf8(s).len() <= i32::MAX,
    ensures
        ({
            let after = overwrite(buf, at, str_bytes(s));
            let n = encode_utf8(s).len() as int;
            &&& after.len() >= at + 4 + n
            &&& int_at(after, at) == n
            &&& valid_utf8(after.subrange(at + 4, at + 4 + n))
            &&& decode_utf8(after.subrange(at + 4, at + 4 + n)) == s
        }),
{
    let text = encode_utf8(s);
    let n = text.len() as int;
    let prefix = int_bytes(n as i32);
    let after = overwrite(buf, at, str_bytes(s));
    lemma_written_bytes_read_back(buf, at, str_bytes(s));
    lemma_int_bytes_round_trip(n as i32);
    assert(after.subrange(at, at + 4 + n) == prefix + text);
    assert(after[at] == prefix[0]);
    assert(after[at + 1] == prefix[1]);
    assert(after[at + 2] == prefix[2]);
    assert(after[at + 3] == prefix[3]);
    assert(after.subrange(at + 4, at + 4 + n) =~= text);
    vstd::utf8::encode_utf8_valid_utf8(s);
    vstd::utf8::encode_utf8_decode_utf8(s);
}

} // verus!
