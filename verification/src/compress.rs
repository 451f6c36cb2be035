//! Compression methods and the block-chunked compressed stream reader.
//!
//! A compressed container holds a method word, a block size, the total
//! decompressed length, a table of compressed block sizes, and then the
//! blocks back to back.  [`scompressed`] states exactly what the reader
//! yields: the concatenation of each block's decompression, named by
//! [`zstd_decode`].  This path is exercised far less than the
//! uncompressed one and is kept deliberately separate from it.

use vstd::prelude::*;

verus! {

use crate::bytes::{ByteCursor, le_u32_at};

/// Everything that can go wrong while opening a compressed stream.
#[derive(Debug, Clone, Copy, PartialEq, Eq, Structural)]
pub enum CompressionError {
    /// A recognized method this reader does not implement.
    UnsupportedCompressionMethod(u32),
    /// A method word outside the known set.
    InvalidCompressionMethod(u32),
    /// The stream identifier did not match.
    InvalidIdentifier,
    /// A zero block size, which would make the block count meaningless.
    InvalidBlockSize,
    /// The stream ended inside the header or a block.
    OutOfData,
    /// A block that the decompressor rejected.
    DecompressionFailed,
}

/// What a zstd frame decodes to, if it is well-formed: a function of the
/// compressed bytes alone.
pub uninterp spec fn zstd_decode(s: Seq<u8>) -> Option<Seq<u8>>;

/// Relies on ruzstd's `StreamingDecoder`: decoding a frame is
/// deterministic in the input bytes, yielding the decompressed content
/// or failing on a malformed frame.
#[verifier::external_body]
fn zstd_decompress(data: &Vec<u8>) -> (r: Option<Vec<u8>>)
    ensures
        match r {
            Some(v) => zstd_decode(data@) == Some(v@),
            None => zstd_decode(data@) is None,
        },
{
    let mut decoder = match ruzstd::decoding::StreamingDecoder::new(data.as_slice()) {
        Ok(d) => d,
        Err(_) => {
            return None;
        },
    };
    let mut out: Vec<u8> = Vec::new();
    match std::io::Read::read_to_end(&mut decoder, &mut out) {
        Ok(_) => Some(out),
        Err(_) => None,
    }
}

/// The zstd decompression method, the one this reader implements.
#[derive(Debug, Clone)]
pub struct CompressionZSTD {}

/// The compression methods a stream can name.
#[derive(Debug, Clone)]
pub enum Compression {
    FastLZ,
    Deflate,
    ZSTD(CompressionZSTD),
    GZIP,
    Brotli,
}

/// The method a method word names: only zstd is accepted; the other
/// known words are rejected as unsupported, anything else as invalid.
pub open spec fn spec_compression(v: u32) -> Result<(), CompressionError> {
    if v == 2 {
        Ok(())
    } else if v == 0 || v == 1 || v == 3 || v == 4 {
        Err(CompressionError::UnsupportedCompressionMethod(v))
    } else {
        Err(CompressionError::InvalidCompressionMethod(v))
    }
}

impl CompressionZSTD {
    /// Decompress one zstd frame.
    pub fn decompress(&self, data: Vec<u8>) -> (r: Result<Vec<u8>, CompressionError>)
        ensures
            match r {
                Ok(v) => zstd_decode(data@) == Some(v@),
                Err(e) => e == CompressionError::DecompressionFailed && zstd_decode(data@)
                    is None,
            },
    {
        match zstd_decompress(&data) {
            Some(v) => Ok(v),
            None => Err(CompressionError::DecompressionFailed),
        }
    }
}

impl Compression {
    /// The method a method word names.
    pub fn from(v: u32) -> (r: Result<Compression, CompressionError>)
        ensures
            r is Ok <==> spec_compression(v) is Ok,
            r matches Ok(c) ==> c is ZSTD,
            r matches Err(e) ==> spec_compression(v) == Err::<(), CompressionError>(e),
    {
        match v {
            0 => Err(CompressionError::UnsupportedCompressionMethod(0)),
            1 => Err(CompressionError::UnsupportedCompressionMethod(1)),
            2 => Ok(Compression::ZSTD(CompressionZSTD {  })),
            3 => Err(CompressionError::UnsupportedCompressionMethod(3)),
            4 => Err(CompressionError::UnsupportedCompressionMethod(4)),
            v => Err(CompressionError::InvalidCompressionMethod(v)),
        }
    }

    /// Decompress one block with this method.
    pub fn decompress(&self, data: Vec<u8>) -> (r: Result<Vec<u8>, CompressionError>)
        requires
            self is ZSTD,
        ensures
            match r {
                Ok(v) => zstd_decode(data@) == Some(v@),
                Err(e) => e == CompressionError::DecompressionFailed && zstd_decode(data@)
                    is None,
            },
    {
        match self {
            Compression::ZSTD(method) => method.decompress(data),
            _ => Err(CompressionError::DecompressionFailed),
        }
    }
}

/// The concatenated decompression of consecutive blocks whose compressed
/// sizes are `sizes`, stored back to back from `start`.
pub open spec fn sblocks(bytes: Seq<u8>, start: int, sizes: Seq<u32>) -> Result<
    Seq<u8>,
    CompressionError,
>
    decreases sizes.len(),
{
    if sizes.len() == 0 {
        Ok(Seq::empty())
    } else {
        let sz = sizes[0] as int;
        if start + sz > bytes.len() {
            Err(CompressionError::OutOfData)
        } else {
            match zstd_decode(bytes.subrange(start, start + sz)) {
                Option::None => Err(CompressionError::DecompressionFailed),
                Option::Some(d) => match sblocks(bytes, start + sz, sizes.subrange(
                    1,
                    sizes.len() as int,
                )) {
                    Err(e) => Err(e),
                    Ok(rest) => Ok(d + rest),
                },
            }
        }
    }
}

/// What opening a compressed stream at `pos` (just after its identifier)
/// yields: the header fields and the concatenated decompressed content.
pub open spec fn scompressed(bytes: Seq<u8>, pos: int) -> Result<
    (u32, u32, Seq<u8>),
    CompressionError,
> {
    if pos + 12 > bytes.len() {
        Err(CompressionError::OutOfData)
    } else {
        let method = le_u32_at(bytes, pos);
        let block_size = le_u32_at(bytes, pos + 4);
        let read_total = le_u32_at(bytes, pos + 8);
        match spec_compression(method as u32) {
            Err(e) => Err(e),
            Ok(()) => {
                if block_size == 0 {
                    Err(CompressionError::InvalidBlockSize)
                } else {
                    let nb = read_total / block_size + 1;
                    if pos + 12 + 4 * nb > bytes.len() {
                        Err(CompressionError::OutOfData)
                    } else {
                        let sizes = Seq::new(
                            nb as nat,
                            |i: int| le_u32_at(bytes, pos + 12 + 4 * i) as u32,
                        );
                        match sblocks(bytes, pos + 12 + 4 * nb, sizes) {
                            Err(e) => Err(e),
                            Ok(content) => Ok(
                                (block_size as u32, read_total as u32, content),
                            ),
                        }
                    }
                }
            },
        }
    }
}

/// A block-chunked compressed stream, fully decompressed at open time.
#[derive(Debug)]
pub struct GodotCompressedReader {
    /// The compression method the header names.
    pub compression: Compression,
    /// The block size the header declares.
    pub block_size: u32,
    /// The total decompressed length the header declares.
    pub read_total: u32,
    /// The concatenated decompressed content.
    pub data: Vec<u8>,
}

impl GodotCompressedReader {
    /// Open a compressed stream whose identifier has already been
    /// consumed: parse the header and block table at `pos`, decompress
    /// every block and concatenate, exactly as [`scompressed`] says.
    pub fn open_after_ident(data: &[u8], pos: usize) -> (r: Result<
        GodotCompressedReader,
        CompressionError,
    >)
        ensures
            match r {
                Ok(rd) => scompressed(data@, pos as int) matches Ok(pr) && pr.0 == rd.block_size
                    && pr.1 == rd.read_total && pr.2 == rd.data@,
                Err(e) => scompressed(data@, pos as int) == Err::<
                    (u32, u32, Seq<u8>),
                    CompressionError,
                >(e),
            },
    {
        let mut cur = ByteCursor::new(data);
        match cur.seek(pos) {
            Ok(()) => (),
            Err(_) => {
                return Err(CompressionError::OutOfData);
            },
        }
        let method = match cur.read_u32() {
            Ok(v) => v,
            Err(_) => {
                return Err(CompressionError::OutOfData);
            },
        };
        let block_size = match cur.read_u32() {
            Ok(v) => v,
            Err(_) => {
                return Err(CompressionError::OutOfData);
            },
        };
        let read_total = match cur.read_u32() {
            Ok(v) => v,
            Err(_) => {
                return Err(CompressionError::OutOfData);
            },
        };
        let compression = match Compression::from(method) {
            Ok(c) => c,
            Err(e) => {
                return Err(e);
            },
        };
        if block_size == 0 {
            return Err(CompressionError::InvalidBlockSize);
        }
        let nb: u64 = read_total as u64 / block_size as u64 + 1;
        let ghost bytes = data@;
        let ghost tpos = pos + 12;
        let mut sizes: Vec<u32> = Vec::new();
        let mut i: u64 = 0;
        while i < nb
            invariant
                cur.wf(),
                cur.bytes() == bytes,
                bytes == data@,
                tpos == pos + 12,
                pos + 12 <= bytes.len(),
                spec_compression(le_u32_at(bytes, pos as int) as u32) is Ok,
                block_size == le_u32_at(bytes, pos + 4),
                block_size != 0,
                read_total == le_u32_at(bytes, pos + 8),
                nb == le_u32_at(bytes, pos + 8) / le_u32_at(bytes, pos + 4) + 1,
                i <= nb,
                cur.pos == tpos + 4 * i,
                sizes@.len() == i,
                forall|j: int|
                    0 <= j < i ==> #[trigger] sizes@[j] == le_u32_at(bytes, tpos + 4 * j) as u32,
            decreases nb - i,
        {
            let v = match cur.read_u32() {
                Ok(v) => v,
                Err(_) => {
                    proof {
                        assert(tpos + 4 * i + 4 > bytes.len());
                        assert(4 * nb >= 4 * i + 4) by (nonlinear_arith)
                            requires
                                i < nb,
                        ;
                    }
                    return Err(CompressionError::OutOfData);
                },
            };
            sizes.push(v);
            i = i + 1;
        }
        let ghost spec_sizes = Seq::new(nb as nat, |j: int| le_u32_at(bytes, tpos + 4 * j) as u32);
        proof {
            assert(sizes@ =~= spec_sizes);
            assert(tpos + 4 * nb <= bytes.len());
        }
        let mut out: Vec<u8> = Vec::new();
        proof {
            assert(spec_sizes.subrange(0, spec_sizes.len() as int) =~= spec_sizes);
            if sblocks(bytes, cur.pos as int, spec_sizes) is Ok {
                assert(out@ + sblocks(bytes, cur.pos as int, spec_sizes)->Ok_0 =~= sblocks(
                    bytes,
                    cur.pos as int,
                    spec_sizes,
                )->Ok_0);
            }
        }
        let mut bi: usize = 0;
        while bi < sizes.len()
            invariant
                cur.wf(),
                cur.bytes() == bytes,
                bytes == data@,
                tpos == pos + 12,
                pos + 12 <= bytes.len(),
                spec_compression(le_u32_at(bytes, pos as int) as u32) is Ok,
                block_size == le_u32_at(bytes, pos + 4),
                block_size != 0,
                read_total == le_u32_at(bytes, pos + 8),
                nb == le_u32_at(bytes, pos + 8) / le_u32_at(bytes, pos + 4) + 1,
                tpos + 4 * nb <= bytes.len(),
                spec_sizes == Seq::new(nb as nat, |j: int| le_u32_at(bytes, tpos + 4 * j) as u32),
                bi <= sizes@.len(),
                sizes@ == spec_sizes,
                cur.pos <= bytes.len(),
                sblocks(bytes, tpos + 4 * (nb as int), spec_sizes) == (match sblocks(
                    bytes,
                    cur.pos as int,
                    spec_sizes.subrange(bi as int, spec_sizes.len() as int),
                ) {
                    Ok(rest) => Ok(out@ + rest),
                    Err(e) => Err::<Seq<u8>, CompressionError>(e),
                }),
            decreases sizes@.len() - bi,
        {
            let sz = sizes[bi];
            let ghost rem = spec_sizes.subrange(bi as int, spec_sizes.len() as int);
            proof {
                assert(rem[0] == spec_sizes[bi as int]);
                assert(rem.subrange(1, rem.len() as int) =~= spec_sizes.subrange(
                    bi + 1,
                    spec_sizes.len() as int,
                ));
            }
            let block = match cur.read_vec(sz as usize) {
                Ok(v) => v,
                Err(_) => {
                    return Err(CompressionError::OutOfData);
                },
            };
            let decomp = match zstd_decompress(&block) {
                Some(v) => v,
                None => {
                    return Err(CompressionError::DecompressionFailed);
                },
            };
            let ghost pre_out = out@;
            let mut decomp = decomp;
            out.append(&mut decomp);
            proof {
                if sblocks(bytes, cur.pos as int, spec_sizes.subrange(
                    bi + 1,
                    spec_sizes.len() as int,
                )) is Ok {
                    let rest2 = sblocks(
                        bytes,
                        cur.pos as int,
                        spec_sizes.subrange(bi + 1, spec_sizes.len() as int),
                    )->Ok_0;
                    assert(out@ + rest2 =~= pre_out + (zstd_decode(
                        bytes.subrange(cur.pos - sz, cur.pos as int),
                    )->Some_0 + rest2));
                }
            }
            bi = bi + 1;
        }
        proof {
            assert(spec_sizes.subrange(sizes@.len() as int, spec_sizes.len() as int)
                =~= Seq::<u32>::empty());
            assert(sblocks(bytes, cur.pos as int, Seq::<u32>::empty()) == Ok::<
                Seq<u8>,
                CompressionError,
            >(Seq::empty()));
            assert(out@ + Seq::<u8>::empty() =~= out@);
        }
        Ok(GodotCompressedReader { compression, block_size, read_total, data: out })
    }

    /// Open a compressed stream, checking its 4-byte identifier first.
    pub fn open(data: &[u8]) -> (r: Result<GodotCompressedReader, CompressionError>)
        ensures
            match r {
                Ok(rd) => data@.len() >= 4 && data@.subrange(0, 4) == compressed_ident() && (
                scompressed(data@, 4) matches Ok(pr) && pr.0 == rd.block_size && pr.1
                    == rd.read_total && pr.2 == rd.data@),
                Err(e) => if data@.len() < 4 || data@.subrange(0, 4) != compressed_ident() {
                    e == CompressionError::InvalidIdentifier
                } else {
                    scompressed(data@, 4) == Err::<(u32, u32, Seq<u8>), CompressionError>(e)
                },
            },
    {
        let mut cur = ByteCursor::new(data);
        let a = match cur.read_u8() {
            Ok(v) => v,
            Err(_) => {
                return Err(CompressionError::InvalidIdentifier);
            },
        };
        let b = match cur.read_u8() {
            Ok(v) => v,
            Err(_) => {
                return Err(CompressionError::InvalidIdentifier);
            },
        };
        let c = match cur.read_u8() {
            Ok(v) => v,
            Err(_) => {
                return Err(CompressionError::InvalidIdentifier);
            },
        };
        let d = match cur.read_u8() {
            Ok(v) => v,
            Err(_) => {
                return Err(CompressionError::InvalidIdentifier);
            },
        };
        if a == 0x47 && b == 0x43 && c == 0x4D && d == 0x50 {
            proof {
                assert(data@.subrange(0, 4) =~= compressed_ident());
            }
            Self::open_after_ident(data, 4)
        } else {
            proof {
                if data@.subrange(0, 4) == compressed_ident() {
                    assert(data@.subrange(0, 4)[0] == 0x47u8);
                    assert(data@.subrange(0, 4)[1] == 0x43u8);
                    assert(data@.subrange(0, 4)[2] == 0x4Du8);
                    assert(data@.subrange(0, 4)[3] == 0x50u8);
                }
            }
            Err(CompressionError::InvalidIdentifier)
        }
    }

    /// The total decompressed length the header declares.
    pub fn length(&self) -> (r: usize)
        ensures
            r == self.read_total,
    {
        self.read_total as usize
    }
}

/// The identifier bytes of a compressed stream.
pub open spec fn compressed_ident() -> Seq<u8> {
    seq![0x47u8, 0x43u8, 0x4Du8, 0x50u8]
}

} // verus!
