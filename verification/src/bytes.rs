//! Little-endian byte reading over a buffered input, plus hex decoding.
//!
//! Every decoder in this crate works on a fully buffered byte slice through
//! [`ByteCursor`], which tracks a read position.  The spec functions here
//! (`le_u16_at`, `le_u32_at`, ...) give the mathematical value of each
//! little-endian field, and the cursor methods promise exactly those values.

use vstd::prelude::*;

verus! {

use vstd::utf8::{valid_utf8, decode_utf8};

/// Failure of a primitive read: the input ran out, or a byte run that was
/// promised to be UTF-8 was not.
#[derive(Debug, Clone, Copy, PartialEq, Eq, Structural)]
pub enum ReadError {
    OutOfBytes,
    InvalidUtf8,
    InvalidHexDigit,
}

/// Little-endian value of the two bytes at `i`.
pub open spec fn le_u16_at(s: Seq<u8>, i: int) -> int
    recommends
        0 <= i,
        i + 2 <= s.len(),
{
    s[i] + s[i + 1] * 0x100
}

/// Little-endian value of the four bytes at `i`.
pub open spec fn le_u32_at(s: Seq<u8>, i: int) -> int
    recommends
        0 <= i,
        i + 4 <= s.len(),
{
    s[i] + s[i + 1] * 0x100 + s[i + 2] * 0x1_0000 + s[i + 3] * 0x100_0000
}

/// Little-endian value of the eight bytes at `i`.
pub open spec fn le_u64_at(s: Seq<u8>, i: int) -> int
    recommends
        0 <= i,
        i + 8 <= s.len(),
{
    s[i] + s[i + 1] * 0x100 + s[i + 2] * 0x1_0000 + s[i + 3] * 0x100_0000 + s[i + 4] * 0x1_0000_0000
        + s[i + 5] * 0x100_0000_0000 + s[i + 6] * 0x1_0000_0000_0000 + s[i + 7]
        * 0x100_0000_0000_0000
}

/// Two's-complement reading of an unsigned 32-bit value.
pub open spec fn as_i32(v: int) -> int {
    if v < 0x8000_0000 {
        v
    } else {
        v - 0x1_0000_0000
    }
}

/// Two's-complement reading of an unsigned 64-bit value.
pub open spec fn as_i64(v: int) -> int {
    if v < 0x8000_0000_0000_0000 {
        v
    } else {
        v - 0x1_0000_0000_0000_0000
    }
}

/// A read position over a borrowed byte slice.  All decoding in this crate
/// happens through one of these; `pos` only ever moves forward.
pub struct ByteCursor<'a> {
    pub data: &'a [u8],
    pub pos: usize,
}

impl<'a> ByteCursor<'a> {
    /// The cursor is inside its buffer.
    pub open spec fn wf(&self) -> bool {
        self.pos <= self.data@.len()
    }

    /// Bytes of the underlying buffer.
    pub open spec fn bytes(&self) -> Seq<u8> {
        self.data@
    }

    pub fn new(data: &'a [u8]) -> (c: ByteCursor<'a>)
        ensures
            c.wf(),
            c.bytes() == data@,
            c.pos == 0,
    {
        ByteCursor { data, pos: 0 }
    }

    /// How many bytes are left to read.
    pub fn remaining(&self) -> (n: usize)
        requires
            self.wf(),
        ensures
            n == self.bytes().len() - self.pos,
    {
        self.data.len() - self.pos
    }

    /// Move the read position to `pos`; fails only past the end of the buffer.
    pub fn seek(&mut self, pos: usize) -> (r: Result<(), ReadError>)
        ensures
            final(self).bytes() == old(self).bytes(),
            r is Ok <==> pos <= old(self).bytes().len(),
            r is Ok ==> final(self).pos == pos && final(self).wf(),
            r is Err ==> *final(self) == *old(self),
    {
        if pos <= self.data.len() {
            self.pos = pos;
            Ok(())
        } else {
            Err(ReadError::OutOfBytes)
        }
    }

    /// Skip `n` bytes.
    pub fn skip(&mut self, n: usize) -> (r: Result<(), ReadError>)
        requires
            old(self).wf(),
        ensures
            final(self).bytes() == old(self).bytes(),
            r is Ok <==> old(self).pos + n <= old(self).bytes().len(),
            r is Ok ==> final(self).pos == old(self).pos + n && final(self).wf(),
            r is Err ==> *final(self) == *old(self),
    {
        if n <= self.data.len() - self.pos {
            self.pos = self.pos + n;
            Ok(())
        } else {
            Err(ReadError::OutOfBytes)
        }
    }

    pub fn read_u8(&mut self) -> (r: Result<u8, ReadError>)
        requires
            old(self).wf(),
        ensures
            final(self).bytes() == old(self).bytes(),
            r is Ok <==> old(self).pos + 1 <= old(self).bytes().len(),
            r matches Ok(v) ==> v == old(self).bytes()[old(self).pos as int] && final(self).pos
                == old(self).pos + 1 && final(self).wf(),
            r is Err ==> *final(self) == *old(self),
    {
        if self.pos < self.data.len() {
            let b = self.data[self.pos];
            self.pos = self.pos + 1;
            Ok(b)
        } else {
            Err(ReadError::OutOfBytes)
        }
    }

    pub fn read_u16(&mut self) -> (r: Result<u16, ReadError>)
        requires
            old(self).wf(),
        ensures
            final(self).bytes() == old(self).bytes(),
            r is Ok <==> old(self).pos + 2 <= old(self).bytes().len(),
            r matches Ok(v) ==> v == le_u16_at(old(self).bytes(), old(self).pos as int) && final(self).pos == old(self).pos + 2 && final(self).wf(),
            r is Err ==> *final(self) == *old(self),
    {
        if 2 <= self.data.len() - self.pos {
            let b0 = self.data[self.pos] as u16;
            let b1 = self.data[self.pos + 1] as u16;
            self.pos = self.pos + 2;
            Ok(b0 + b1 * 0x100)
        } else {
            Err(ReadError::OutOfBytes)
        }
    }

    pub fn read_u32(&mut self) -> (r: Result<u32, ReadError>)
        requires
            old(self).wf(),
        ensures
            final(self).bytes() == old(self).bytes(),
            r is Ok <==> old(self).pos + 4 <= old(self).bytes().len(),
            r matches Ok(v) ==> v == le_u32_at(old(self).bytes(), old(self).pos as int) && final(self).pos == old(self).pos + 4 && final(self).wf(),
            r is Err ==> *final(self) == *old(self),
    {
        if 4 <= self.data.len() - self.pos {
            let b0 = self.data[self.pos] as u32;
            let b1 = self.data[self.pos + 1] as u32;
            let b2 = self.data[self.pos + 2] as u32;
            let b3 = self.data[self.pos + 3] as u32;
            self.pos = self.pos + 4;
            Ok(b0 + b1 * 0x100 + b2 * 0x1_0000 + b3 * 0x100_0000)
        } else {
            Err(ReadError::OutOfBytes)
        }
    }

    pub fn read_u64(&mut self) -> (r: Result<u64, ReadError>)
        requires
            old(self).wf(),
        ensures
            final(self).bytes() == old(self).bytes(),
            r is Ok <==> old(self).pos + 8 <= old(self).bytes().len(),
            r matches Ok(v) ==> v == le_u64_at(old(self).bytes(), old(self).pos as int) && final(self).pos == old(self).pos + 8 && final(self).wf(),
            r is Err ==> *final(self) == *old(self),
    {
        if 8 <= self.data.len() - self.pos {
            let b0 = self.data[self.pos] as u64;
            let b1 = self.data[self.pos + 1] as u64;
            let b2 = self.data[self.pos + 2] as u64;
            let b3 = self.data[self.pos + 3] as u64;
            let b4 = self.data[self.pos + 4] as u64;
            let b5 = self.data[self.pos + 5] as u64;
            let b6 = self.data[self.pos + 6] as u64;
            let b7 = self.data[self.pos + 7] as u64;
            self.pos = self.pos + 8;
            Ok(
                b0 + b1 * 0x100 + b2 * 0x1_0000 + b3 * 0x100_0000 + b4 * 0x1_0000_0000 + b5
                    * 0x100_0000_0000 + b6 * 0x1_0000_0000_0000 + b7 * 0x100_0000_0000_0000,
            )
        } else {
            Err(ReadError::OutOfBytes)
        }
    }

    pub fn read_i32(&mut self) -> (r: Result<i32, ReadError>)
        requires
            old(self).wf(),
        ensures
            final(self).bytes() == old(self).bytes(),
            r is Ok <==> old(self).pos + 4 <= old(self).bytes().len(),
            r matches Ok(v) ==> v == as_i32(le_u32_at(old(self).bytes(), old(self).pos as int))
                && final(self).pos == old(self).pos + 4 && final(self).wf(),
            r is Err ==> *final(self) == *old(self),
    {
        match self.read_u32() {
            Ok(v) => {
                if v < 0x8000_0000 {
                    Ok(v as i32)
                } else {
                    Ok((v as i64 - 0x1_0000_0000i64) as i32)
                }
            },
            Err(e) => Err(e),
        }
    }

    pub fn read_i64(&mut self) -> (r: Result<i64, ReadError>)
        requires
            old(self).wf(),
        ensures
            final(self).bytes() == old(self).bytes(),
            r is Ok <==> old(self).pos + 8 <= old(self).bytes().len(),
            r matches Ok(v) ==> v == as_i64(le_u64_at(old(self).bytes(), old(self).pos as int))
                && final(self).pos == old(self).pos + 8 && final(self).wf(),
            r is Err ==> *final(self) == *old(self),
    {
        match self.read_u64() {
            Ok(v) => {
                if v < 0x8000_0000_0000_0000 {
                    Ok(v as i64)
                } else {
                    let low63: u64 = v - 0x8000_0000_0000_0000;
                    Ok(i64::MIN + low63 as i64)
                }
            },
            Err(e) => Err(e),
        }
    }

    /// Read `len` bytes into a fresh vector.
    pub fn read_vec(&mut self, len: usize) -> (r: Result<Vec<u8>, ReadError>)
        requires
            old(self).wf(),
        ensures
            final(self).bytes() == old(self).bytes(),
            r is Ok <==> old(self).pos + len <= old(self).bytes().len(),
            r matches Ok(v) ==> v@ == old(self).bytes().subrange(
                old(self).pos as int,
                old(self).pos + len,
            ) && final(self).pos == old(self).pos + len && final(self).wf(),
            r is Err ==> *final(self) == *old(self) && r == Err::<Vec<u8>, ReadError>(
                ReadError::OutOfBytes,
            ),
    {
        if len <= self.data.len() - self.pos {
            let mut v: Vec<u8> = Vec::new();
            let mut i: usize = 0;
            while i < len
                invariant
                    self.wf(),
                    i <= len,
                    self.pos + len <= usize::MAX,
                    self.pos + len <= self.bytes().len(),
                    v@ == self.bytes().subrange(self.pos as int, self.pos + i),
                decreases len - i,
            {
                v.push(self.data[self.pos + i]);
                proof {
                    assert(v@ =~= self.bytes().subrange(self.pos as int, self.pos + i + 1));
                }
                i = i + 1;
            }
            self.pos = self.pos + len;
            Ok(v)
        } else {
            Err(ReadError::OutOfBytes)
        }
    }
}

/// Relies on `String::from_utf8`: succeeds exactly on valid UTF-8 input and
/// yields the string whose characters are the UTF-8 decoding of the bytes.
#[verifier::external_body]
pub fn string_from_utf8(v: Vec<u8>) -> (r: Result<String, ReadError>)
    ensures
        match r {
            Ok(s) => valid_utf8(v@) && s@ == decode_utf8(v@),
            Err(e) => !valid_utf8(v@) && e == ReadError::InvalidUtf8,
        },
{
    match String::from_utf8(v) {
        Ok(s) => Ok(s),
        Err(_) => Err(ReadError::InvalidUtf8),
    }
}

impl<'a> ByteCursor<'a> {
    /// Read `len` bytes and decode them as UTF-8.
    pub fn read_string_len(&mut self, len: usize) -> (r: Result<String, ReadError>)
        requires
            old(self).wf(),
        ensures
            final(self).bytes() == old(self).bytes(),
            r is Ok <==> old(self).pos + len <= old(self).bytes().len() && valid_utf8(
                old(self).bytes().subrange(old(self).pos as int, old(self).pos + len),
            ),
            r matches Ok(s) ==> s@ == decode_utf8(
                old(self).bytes().subrange(old(self).pos as int, old(self).pos + len),
            ) && final(self).pos == old(self).pos + len && final(self).wf(),
            r is Err ==> final(self).pos == old(self).pos,
            r matches Err(e) ==> ((e == ReadError::OutOfBytes && old(self).pos + len > old(
                self,
            ).bytes().len()) || (e == ReadError::InvalidUtf8 && old(self).pos + len <= old(
                self,
            ).bytes().len() && !valid_utf8(
                old(self).bytes().subrange(old(self).pos as int, old(self).pos + len),
            ))),
    {
        match self.read_vec(len) {
            Ok(v) => {
                match string_from_utf8(v) {
                    Ok(s) => Ok(s),
                    Err(e) => {
                        self.pos = self.pos - len;
                        Err(e)
                    },
                }
            },
            Err(e) => Err(e),
        }
    }
}

/// True when `c` is an ASCII hexadecimal digit.
pub open spec fn is_hex_digit(c: char) -> bool {
    (0x30 <= c as int && c as int <= 0x39) || (0x61 <= c as int && c as int <= 0x66) || (0x41 <= c
        as int && c as int <= 0x46)
}

/// Numeric value of a hexadecimal digit.
pub open spec fn hex_digit_val(c: char) -> int
    recommends
        is_hex_digit(c),
{
    if 0x30 <= c as int && c as int <= 0x39 {
        c as int - 0x30
    } else if 0x61 <= c as int && c as int <= 0x66 {
        c as int - 0x61 + 10
    } else {
        c as int - 0x41 + 10
    }
}

/// Byte value of the digit pair at positions `2*i` and `2*i + 1`.
pub open spec fn hex_pair_val(s: Seq<char>, i: int) -> int {
    hex_digit_val(s[2 * i]) * 16 + hex_digit_val(s[2 * i + 1])
}

fn hex_digit_of(c: char) -> (r: Option<u8>)
    ensures
        r is Some <==> is_hex_digit(c),
        r matches Some(v) ==> v == hex_digit_val(c),
{
    let v = c as u32;
    if 0x30 <= v && v <= 0x39 {
        Some((v - 0x30) as u8)
    } else if 0x61 <= v && v <= 0x66 {
        Some((v - 0x61 + 10) as u8)
    } else if 0x41 <= v && v <= 0x46 {
        Some((v - 0x41 + 10) as u8)
    } else {
        None
    }
}

/// Decode a hexadecimal string, two digits per byte.
///
/// Succeeds exactly when every character is a hex digit; the i-th output
/// byte is the value of the i-th digit pair.
pub fn decode_hex(hex_string: &str) -> (r: Result<Vec<u8>, ReadError>)
    requires
        hex_string@.len() % 2 == 0,
    ensures
        r is Ok <==> forall|i: int| 0 <= i < hex_string@.len() ==> is_hex_digit(hex_string@[i]),
        r matches Ok(v) ==> v@.len() == hex_string@.len() / 2 && forall|i: int|
            0 <= i < v@.len() ==> v@[i] == hex_pair_val(hex_string@, i),
{
    let n = hex_string.unicode_len();
    let mut out: Vec<u8> = Vec::new();
    let mut i: usize = 0;
    while i + 1 < n
        invariant
            n == hex_string@.len(),
            n % 2 == 0,
            i % 2 == 0,
            i <= n,
            out@.len() == i / 2,
            forall|j: int| 0 <= j < i ==> is_hex_digit(hex_string@[j]),
            forall|j: int| 0 <= j < out@.len() ==> out@[j] == hex_pair_val(hex_string@, j),
        decreases n - i,
    {
        let hi = hex_string.get_char(i);
        let lo = hex_string.get_char(i + 1);
        match (hex_digit_of(hi), hex_digit_of(lo)) {
            (Some(h), Some(l)) => {
                out.push(h * 16 + l);
            },
            _ => {
                return Err(ReadError::InvalidHexDigit);
            },
        }
        i = i + 2;
    }
    Ok(out)
}

} // verus!
