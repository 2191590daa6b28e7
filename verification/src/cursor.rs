use vstd::prelude::*;
use vstd::utf8::{decode_utf8, valid_utf8};

use crate::error::MapError;

verus! {

/// A sequential, bounds-checked reader over an immutable byte buffer.
///
/// The position only ever advances; it never rewinds, and it never passes
/// the end of the buffer. Each read is specified by a spec function over
/// the buffer's byte sequence, so that a whole decode is a function of the
/// input bytes alone.
pub struct Cursor<'a> {
    pub data: &'a [u8],
    pub pos: usize,
}

/// One byte read at `i`, together with the position after it.
pub open spec fn spec_read_u8(d: Seq<u8>, i: int) -> Result<(u8, int), MapError> {
    if 0 <= i && i + 1 <= d.len() {
        Ok((d[i], i + 1))
    } else {
        Err(MapError::BufferUnderrun)
    }
}

/// Two bytes read at `i`, little endian, as an unsigned 16-bit value.
pub open spec fn spec_read_u16_le(d: Seq<u8>, i: int) -> Result<(u16, int), MapError> {
    if 0 <= i && i + 2 <= d.len() {
        Ok(((d[i] as u16) | ((d[i + 1] as u16) << 8), i + 2))
    } else {
        Err(MapError::BufferUnderrun)
    }
}

/// Two bytes read at `i`, little endian, reinterpreted as a signed
/// 16-bit value.
pub open spec fn spec_read_i16_le(d: Seq<u8>, i: int) -> Result<(i16, int), MapError> {
    match spec_read_u16_le(d, i) {
        Ok(t) => Ok((t.0 as i16, t.1)),
        Err(e) => Err(e),
    }
}

/// Four bytes read at `i`, little endian, as an unsigned 32-bit value.
pub open spec fn spec_read_u32_le(d: Seq<u8>, i: int) -> Result<(u32, int), MapError> {
    if 0 <= i && i + 4 <= d.len() {
        Ok((
            (d[i] as u32) | ((d[i + 1] as u32) << 8) | ((d[i + 2] as u32) << 16) | ((d[i
                + 3] as u32) << 24),
            i + 4,
        ))
    } else {
        Err(MapError::BufferUnderrun)
    }
}

/// Four bytes read at `i`, little endian, reinterpreted as a signed
/// 32-bit value.
pub open spec fn spec_read_i32_le(d: Seq<u8>, i: int) -> Result<(i32, int), MapError> {
    match spec_read_u32_le(d, i) {
        Ok(t) => Ok((t.0 as i32, t.1)),
        Err(e) => Err(e),
    }
}

/// One step of the varint accumulation: `count` bytes are already folded
/// into `acc`, and the next byte contributes its low seven bits at the next
/// shift. A fifth continuation byte would push past 32 bits and is refused.
pub open spec fn spec_read_varint_rec(d: Seq<u8>, i: int, count: nat, acc: u32) -> Result<
    (i32, int),
    MapError,
>
    decreases 5 - count,
{
    match spec_read_u8(d, i) {
        Err(e) => Err(e),
        Ok(t) => {
            let acc2 = acc | (((t.0 & 0x7f) as u32) << ((7 * count) as u32));
            if t.0 & 0x80 == 0 {
                Ok((acc2 as i32, t.1))
            } else if count + 1 >= 5 {
                Err(MapError::MalformedVarint)
            } else {
                spec_read_varint_rec(d, t.1, count + 1, acc2)
            }
        },
    }
}

/// A 32-bit signed integer read seven bits per byte, the high bit of each
/// byte flagging a continuation.
pub open spec fn spec_read_varint(d: Seq<u8>, i: int) -> Result<(i32, int), MapError> {
    spec_read_varint_rec(d, i, 0, 0)
}

/// The seven-bit continuation encoding of an unsigned 32-bit value: the
/// low seven bits of each group in order, the high bit of every byte but
/// the last set.
pub open spec fn spec_varint_encoding(n: u32) -> Seq<u8>
    decreases n,
    via spec_varint_encoding_decreases
{
    if n < 0x80 {
        seq![n as u8]
    } else {
        seq![((n & 0x7f) | 0x80) as u8] + spec_varint_encoding(n >> 7)
    }
}

#[via_fn]
proof fn spec_varint_encoding_decreases(n: u32) {
    assert(n >= 0x80 ==> (n >> 7) < n) by (bit_vector);
}

/// Decoding an encoding placed at `i` folds `n` into the bits above the
/// `count` groups already accumulated in `acc`.
proof fn lemma_varint_rt_rec(d: Seq<u8>, i: int, count: nat, acc: u32, n: u32)
    requires
        0 <= i,
        i + spec_varint_encoding(n).len() <= d.len(),
        d.subrange(i, i + spec_varint_encoding(n).len() as int) == spec_varint_encoding(n),
        count <= 4,
        count > 0 ==> (n >> ((32 - 7 * count) as u32)) == 0,
    ensures
        spec_read_varint_rec(d, i, count, acc) == Ok::<(i32, int), MapError>(
            (
                ((acc | (n << ((7 * count) as u32))) as i32),
                i + spec_varint_encoding(n).len(),
            ),
        ),
    decreases n,
{
    let enc = spec_varint_encoding(n);
    assert(d.subrange(i, i + enc.len() as int)[0] == d[i]);
    if n < 0x80 {
        assert(d[i] == n as u8);
        assert((n as u8) & 0x80 == 0 && ((n as u8) & 0x7f) as u32 == n && (n >> 7) == 0 || n
            >= 0x80) by (bit_vector);
    } else {
        let b = ((n & 0x7f) | 0x80) as u8;
        assert(enc[0] == b);
        assert(d[i] == b);
        assert((((n & 0x7f) | 0x80) as u8) & 0x80 != 0 && (((((n & 0x7f) | 0x80) as u8)
            & 0x7f) as u32) == (n & 0x7f)) by (bit_vector);
        if count == 4 {
            assert(!((n >> 4) == 0 && n >= 0x80)) by (bit_vector);
            assert(false);
        }
        let n2 = n >> 7;
        let enc2 = spec_varint_encoding(n2);
        assert(enc == seq![b] + enc2);
        assert(d.subrange(i + 1, i + 1 + enc2.len()) =~= enc2) by {
            assert forall|k: int| 0 <= k < enc2.len() implies d.subrange(
                i + 1,
                i + 1 + enc2.len(),
            )[k] == enc2[k] by {
                assert(d.subrange(i, i + enc.len() as int)[k + 1] == d[i + 1 + k]);
                assert(enc[k + 1] == enc2[k]);
            }
        }
        if count == 0 {
            assert(((n >> 7) >> 25) == 0) by (bit_vector);
        } else if count == 1 {
            assert((n >> 25) == 0 ==> ((n >> 7) >> 18) == 0) by (bit_vector);
        } else if count == 2 {
            assert((n >> 18) == 0 ==> ((n >> 7) >> 11) == 0) by (bit_vector);
        } else {
            assert((n >> 11) == 0 ==> ((n >> 7) >> 4) == 0) by (bit_vector);
        }
        assert(n >= 0x80 ==> (n >> 7) < n) by (bit_vector);
        let acc2 = acc | (((b & 0x7f) as u32) << ((7 * count) as u32));
        lemma_varint_rt_rec(d, i + 1, count + 1, acc2, n2);
        if count == 0 {
            assert((acc | (((((n & 0x7f) | 0x80) as u8) & 0x7f) as u32) << 0u32) | ((n >> 7)
                << 7u32) == acc | (n << 0u32)) by (bit_vector);
        } else if count == 1 {
            assert((acc | (((((n & 0x7f) | 0x80) as u8) & 0x7f) as u32) << 7u32) | ((n >> 7)
                << 14u32) == acc | (n << 7u32)) by (bit_vector);
        } else if count == 2 {
            assert((acc | (((((n & 0x7f) | 0x80) as u8) & 0x7f) as u32) << 14u32) | ((n >> 7)
                << 21u32) == acc | (n << 14u32)) by (bit_vector);
        } else {
            assert((acc | (((((n & 0x7f) | 0x80) as u8) & 0x7f) as u32) << 21u32) | ((n >> 7)
                << 28u32) == acc | (n << 21u32)) by (bit_vector);
        }
    }
}

/// Round trip: encoding any integer in the range of nonnegative 32-bit
/// values with the seven-bit continuation scheme and then decoding it
/// returns that same integer, consuming exactly the encoding.
pub proof fn lemma_varint_round_trip(d: Seq<u8>, i: int, n: i32)
    requires
        0 <= n,
        0 <= i,
        i + spec_varint_encoding(n as u32).len() <= d.len(),
        d.subrange(i, i + spec_varint_encoding(n as u32).len() as int) == spec_varint_encoding(
            n as u32,
        ),
    ensures
        spec_read_varint(d, i) == Ok::<(i32, int), MapError>(
            (n, i + spec_varint_encoding(n as u32).len()),
        ),
{
    lemma_varint_rt_rec(d, i, 0, 0, n as u32);
    let nu = n as u32;
    assert(0u32 | (nu << 0u32) == nu) by (bit_vector);
    assert(n >= 0 ==> ((n as u32) as i32) == n) by (bit_vector);
}

/// A varint length `n` followed by `n` raw bytes decoded as UTF-8 text.
/// A length of zero or less carries no bytes and stands for empty text.
pub open spec fn spec_read_string(d: Seq<u8>, i: int) -> Result<(Seq<char>, int), MapError> {
    match spec_read_varint(d, i) {
        Err(e) => Err(e),
        Ok(t) => {
            let n = t.0;
            let j = t.1;
            if n <= 0 {
                Ok((Seq::empty(), j))
            } else if j + n <= d.len() {
                let bytes = d.subrange(j, j + n);
                if valid_utf8(bytes) {
                    Ok((decode_utf8(bytes), j + n))
                } else {
                    Err(MapError::InvalidUtf8)
                }
            } else {
                Err(MapError::BufferUnderrun)
            }
        },
    }
}

/// The character `c` repeated `n` times.
pub open spec fn char_run(c: char, n: nat) -> Seq<char> {
    Seq::new(n, |k: int| c)
}

/// `n` pairs of one repeat count and one character byte, each pair expanding
/// to its character repeated that many times, appended in pair order.
pub open spec fn spec_read_rle_pairs(d: Seq<u8>, i: int, n: nat, acc: Seq<char>) -> Result<
    (Seq<char>, int),
    MapError,
>
    decreases n,
{
    if n == 0 {
        Ok((acc, i))
    } else {
        match spec_read_u8(d, i) {
            Err(e) => Err(e),
            Ok(t1) => match spec_read_u8(d, t1.1) {
                Err(e) => Err(e),
                Ok(t2) => spec_read_rle_pairs(
                    d,
                    t2.1,
                    (n - 1) as nat,
                    acc + char_run(t2.0 as char, t1.0 as nat),
                ),
            },
        }
    }
}

/// A signed 16-bit byte count `b`, then `b / 2` run-length pairs. A byte
/// count of zero or less carries no pairs and stands for empty text.
pub open spec fn spec_read_rle_string(d: Seq<u8>, i: int) -> Result<(Seq<char>, int), MapError> {
    match spec_read_i16_le(d, i) {
        Err(e) => Err(e),
        Ok(t) => {
            let pairs: nat = if t.0 <= 0 {
                0
            } else {
                (t.0 / 2) as nat
            };
            spec_read_rle_pairs(d, t.1, pairs, Seq::empty())
        },
    }
}

/// Relies on `String::from_utf8`: it returns the text decoded from the
/// bytes when they are valid UTF-8, and an error exactly otherwise.
#[verifier::external_body]
fn utf8_to_string(bytes: Vec<u8>) -> (r: Option<String>)
    ensures
        (match r {
            Some(s) => valid_utf8(bytes@) && s@ == decode_utf8(bytes@),
            None => !valid_utf8(bytes@),
        }),
{
    String::from_utf8(bytes).ok()
}

/// Relies on `String::push`: it appends the given character at the end of
/// the string.
#[verifier::external_body]
fn string_push(s: &mut String, c: char)
    ensures
        final(s)@ == old(s)@.push(c),
{
    s.push(c);
}

impl<'a> Cursor<'a> {
    /// The cursor never stands past the end of its buffer.
    pub open spec fn wf(&self) -> bool {
        self.pos <= self.data@.len()
    }

    pub fn new(data: &'a [u8]) -> (r: Cursor<'a>)
        ensures
            r.wf(),
            r.data@ == data@,
            r.pos == 0,
    {
        Cursor { data, pos: 0 }
    }

    /// Consumes one byte, or fails with `BufferUnderrun` if none remains.
    pub fn read_u8(&mut self) -> (r: Result<u8, MapError>)
        requires
            old(self).wf(),
        ensures
            final(self).wf(),
            final(self).data@ == old(self).data@,
            old(self).pos <= final(self).pos,
            (match spec_read_u8(old(self).data@, old(self).pos as int) {
                Ok(t) => r == Ok::<u8, MapError>(t.0) && final(self).pos as int == t.1,
                Err(e) => r == Err::<u8, MapError>(e) && final(self).pos == old(self).pos,
            }),
    {
        if self.pos < self.data.len() {
            let b = self.data[self.pos];
            self.pos = self.pos + 1;
            Ok(b)
        } else {
            Err(MapError::BufferUnderrun)
        }
    }

    /// Consumes two bytes as a little-endian unsigned 16-bit value.
    pub fn read_u16_le(&mut self) -> (r: Result<u16, MapError>)
        requires
            old(self).wf(),
        ensures
            final(self).wf(),
            final(self).data@ == old(self).data@,
            old(self).pos <= final(self).pos,
            (match spec_read_u16_le(old(self).data@, old(self).pos as int) {
                Ok(t) => r == Ok::<u16, MapError>(t.0) && final(self).pos as int == t.1,
                Err(e) => r == Err::<u16, MapError>(e) && final(self).pos == old(self).pos,
            }),
    {
        if self.data.len() - self.pos >= 2 {
            let lo = self.data[self.pos];
            let hi = self.data[self.pos + 1];
            self.pos = self.pos + 2;
            Ok((lo as u16) | ((hi as u16) << 8))
        } else {
            Err(MapError::BufferUnderrun)
        }
    }

    /// Consumes two bytes as a little-endian signed 16-bit value.
    pub fn read_i16_le(&mut self) -> (r: Result<i16, MapError>)
        requires
            old(self).wf(),
        ensures
            final(self).wf(),
            final(self).data@ == old(self).data@,
            old(self).pos <= final(self).pos,
            (match spec_read_i16_le(old(self).data@, old(self).pos as int) {
                Ok(t) => r == Ok::<i16, MapError>(t.0) && final(self).pos as int == t.1,
                Err(e) => r == Err::<i16, MapError>(e) && final(self).pos == old(self).pos,
            }),
    {
        match self.read_u16_le() {
            Ok(v) => Ok(
                #[verifier::truncate]
                (v as i16),
            ),
            Err(e) => Err(e),
        }
    }

    /// Consumes four bytes as a little-endian unsigned 32-bit value.
    pub fn read_u32_le(&mut self) -> (r: Result<u32, MapError>)
        requires
            old(self).wf(),
        ensures
            final(self).wf(),
            final(self).data@ == old(self).data@,
            old(self).pos <= final(self).pos,
            (match spec_read_u32_le(old(self).data@, old(self).pos as int) {
                Ok(t) => r == Ok::<u32, MapError>(t.0) && final(self).pos as int == t.1,
                Err(e) => r == Err::<u32, MapError>(e) && final(self).pos == old(self).pos,
            }),
    {
        if self.data.len() - self.pos >= 4 {
            let b0 = self.data[self.pos];
            let b1 = self.data[self.pos + 1];
            let b2 = self.data[self.pos + 2];
            let b3 = self.data[self.pos + 3];
            self.pos = self.pos + 4;
            Ok((b0 as u32) | ((b1 as u32) << 8) | ((b2 as u32) << 16) | ((b3 as u32) << 24))
        } else {
            Err(MapError::BufferUnderrun)
        }
    }

    /// Consumes four bytes as a little-endian signed 32-bit value.
    pub fn read_i32_le(&mut self) -> (r: Result<i32, MapError>)
        requires
            old(self).wf(),
        ensures
            final(self).wf(),
            final(self).data@ == old(self).data@,
            old(self).pos <= final(self).pos,
            (match spec_read_i32_le(old(self).data@, old(self).pos as int) {
                Ok(t) => r == Ok::<i32, MapError>(t.0) && final(self).pos as int == t.1,
                Err(e) => r == Err::<i32, MapError>(e) && final(self).pos == old(self).pos,
            }),
    {
        match self.read_u32_le() {
            Ok(v) => Ok(
                #[verifier::truncate]
                (v as i32),
            ),
            Err(e) => Err(e),
        }
    }

    /// Consumes a variable-length 32-bit signed integer, seven bits per
    /// byte, the high bit flagging a continuation. Fails with
    /// `MalformedVarint` when a fifth byte still asks for more.
    #[verifier::loop_isolation(false)]
    pub fn read_varint(&mut self) -> (r: Result<i32, MapError>)
        requires
            old(self).wf(),
        ensures
            final(self).wf(),
            final(self).data@ == old(self).data@,
            old(self).pos <= final(self).pos,
            (match spec_read_varint(old(self).data@, old(self).pos as int) {
                Ok(t) => r == Ok::<i32, MapError>(t.0) && final(self).pos as int == t.1,
                Err(e) => r == Err::<i32, MapError>(e),
            }),
    {
        let ghost d = self.data@;
        let ghost i0 = self.pos as int;
        let mut acc: u32 = 0;
        let mut count: usize = 0;
        loop
            invariant
                self.wf(),
                self.data@ == d,
                count <= 4,
                i0 <= self.pos as int,
                spec_read_varint(d, i0) == spec_read_varint_rec(
                    d,
                    self.pos as int,
                    count as nat,
                    acc,
                ),
            decreases 5 - count,
        {
            match self.read_u8() {
                Err(e) => {
                    return Err(e);
                },
                Ok(b) => {
                    let shift: u32 = 7 * (count as u32);
                    acc = acc | (((b & 0x7f) as u32) << shift);
                    if b & 0x80 == 0 {
                        return Ok(
                            #[verifier::truncate]
                            (acc as i32),
                        );
                    }
                    if count + 1 >= 5 {
                        return Err(MapError::MalformedVarint);
                    }
                    count = count + 1;
                },
            }
        }
    }

    /// Consumes one varint length `n`, then `n` raw bytes decoded as UTF-8
    /// text. Fails with `InvalidUtf8` when the bytes are not valid UTF-8,
    /// and with `BufferUnderrun` when fewer than `n` bytes remain.
    #[verifier::loop_isolation(false)]
    pub fn read_length_prefixed_string(&mut self) -> (r: Result<String, MapError>)
        requires
            old(self).wf(),
        ensures
            final(self).wf(),
            final(self).data@ == old(self).data@,
            old(self).pos <= final(self).pos,
            (match spec_read_string(old(self).data@, old(self).pos as int) {
                Ok(t) => r matches Ok(s) && s@ == t.0 && final(self).pos as int == t.1,
                Err(e) => r == Err::<String, MapError>(e),
            }),
    {
        let n = match self.read_varint() {
            Ok(v) => v,
            Err(e) => {
                return Err(e);
            },
        };
        if n <= 0 {
            return Ok(String::new());
        }
        let n = n as usize;
        if self.data.len() - self.pos < n {
            return Err(MapError::BufferUnderrun);
        }
        let start = self.pos;
        let mut buf: Vec<u8> = Vec::new();
        let mut k: usize = 0;
        while k < n
            invariant
                k <= n,
                start + n <= self.data@.len(),
                self.pos == start,
                self.data@ == old(self).data@,
                buf@ == self.data@.subrange(start as int, start as int + k as int),
            decreases n - k,
        {
            buf.push(self.data[start + k]);
            proof {
                assert(buf@ =~= self.data@.subrange(start as int, start as int + (k + 1) as int));
            }
            k = k + 1;
        }
        self.pos = start + n;
        match utf8_to_string(buf) {
            Some(s) => Ok(s),
            None => Err(MapError::InvalidUtf8),
        }
    }

    /// Consumes one signed 16-bit byte count `b`, then `b / 2` pairs of a
    /// repeat count and a character byte, and expands them into text in
    /// pair order.
    #[verifier::loop_isolation(false)]
    pub fn read_rle_string(&mut self) -> (r: Result<String, MapError>)
        requires
            old(self).wf(),
        ensures
            final(self).wf(),
            final(self).data@ == old(self).data@,
            old(self).pos <= final(self).pos,
            (match spec_read_rle_string(old(self).data@, old(self).pos as int) {
                Ok(t) => r matches Ok(s) && s@ == t.0 && final(self).pos as int == t.1,
                Err(e) => r == Err::<String, MapError>(e),
            }),
    {
        let ghost d = self.data@;
        let b = match self.read_i16_le() {
            Ok(v) => v,
            Err(e) => {
                return Err(e);
            },
        };
        let pairs: usize = if b <= 0 {
            0
        } else {
            (b / 2) as usize
        };
        let mut s = String::new();
        let mut k: usize = 0;
        while k < pairs
            invariant
                old(self).wf(),
                self.wf(),
                self.data@ == d,
                k <= pairs,
                old(self).pos <= self.pos,
                spec_read_rle_string(d, old(self).pos as int) == spec_read_rle_pairs(
                    d,
                    self.pos as int,
                    (pairs - k) as nat,
                    s@,
                ),
            decreases pairs - k,
        {
            let rep = match self.read_u8() {
                Ok(v) => v,
                Err(e) => {
                    return Err(e);
                },
            };
            let cb = match self.read_u8() {
                Ok(v) => v,
                Err(e) => {
                    return Err(e);
                },
            };
            let c = cb as char;
            let ghost s0 = s@;
            let mut m: usize = 0;
            while m < rep as usize
                invariant
                    m <= rep as usize,
                    s@ == s0 + char_run(c, m as nat),
                decreases rep as usize - m,
            {
                string_push(&mut s, c);
                proof {
                    assert(s@ =~= s0 + char_run(c, (m + 1) as nat));
                }
                m = m + 1;
            }
            proof {
                assert(s@ =~= s0 + char_run(c, rep as nat));
            }
            k = k + 1;
        }
        Ok(s)
    }
}

} // verus!
