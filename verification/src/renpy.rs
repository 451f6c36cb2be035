//! Compiled-script containers: a magic header, a chunk table of
//! (slot, offset, length) records, and one zlib-compressed pickle
//! stream per chunk.
//!
//! [`sscript`] is the exact meaning of a script image, with each
//! chunk's decompression named by [`zlib_inflate`]; the pickle stream
//! inside a chunk is interpreted by [`crate::pickle_parse`].

use vstd::prelude::*;

verus! {

use crate::bytes::ByteCursor;
use crate::bytes::le_u32_at;
use crate::pickle::{Pickle, PickleVal, seq_view, dict_view, lemma_seq_view, lemma_dict_view};
use crate::pickle_ops::PickleError;
use crate::pickle_parse::{PickleParser, parse_spec};

/// Everything that can go fatally wrong while loading a script
/// container.
#[derive(Debug, PartialEq, Eq, Structural, Clone, Copy)]
pub enum RenPyError {
    /// An archive index that did not decode to the expected shape.
    ArchiveInvalidHeader,
    /// A pickle stream that failed to parse.
    PickleParseFail,
    /// A script magic that did not match.
    ScriptInvalidHeader,
    /// The input ended inside the chunk table or a chunk.
    OutOfData,
    /// A chunk that the decompressor rejected.
    ChunkDecompressFailed,
}

/// What a zlib stream inflates to, if it is well-formed: a function of
/// the compressed bytes alone.
pub uninterp spec fn zlib_inflate(s: Seq<u8>) -> Option<Seq<u8>>;

/// Relies on flate2's `ZlibDecoder`: inflating a stream is
/// deterministic in the input bytes, yielding the decompressed content
/// or failing on malformed input.
#[verifier::external_body]
fn zlib_decompress(data: &Vec<u8>) -> (r: Option<Vec<u8>>)
    ensures
        match r {
            Some(v) => zlib_inflate(data@) == Some(v@),
            None => zlib_inflate(data@) is None,
        },
{
    let mut decoder = flate2::read::ZlibDecoder::new(data.as_slice());
    let mut out: Vec<u8> = Vec::new();
    match std::io::Read::read_to_end(&mut decoder, &mut out) {
        Ok(_) => Some(out),
        Err(_) => None,
    }
}

/// One decompressed chunk: its slot number and its pickle bytes.
#[derive(Debug)]
pub struct RenPyCompiledScriptChunk {
    pub slot: u32,
    pub data: Vec<u8>,
}

/// A loaded script container.
#[derive(Debug)]
pub struct RenPyCompiledScript {
    pub chunks: Vec<RenPyCompiledScriptChunk>,
}

/// Model of a chunk vector: slot and content pairs.
pub open spec fn chunks_view(s: Seq<RenPyCompiledScriptChunk>) -> Seq<(u32, Seq<u8>)> {
    Seq::new(s.len(), |i: int| (s[i].slot, s[i].data@))
}

/// The script magic bytes, `RENPY RPC2`.
pub open spec fn script_magic() -> Seq<u8> {
    seq![0x52u8, 0x45u8, 0x4Eu8, 0x50u8, 0x59u8, 0x20u8, 0x52u8, 0x50u8, 0x43u8, 0x32u8]
}

/// The chunk table from `pos`: (slot, offset, length) triples, ended by
/// a record whose slot is zero.
pub open spec fn schunk_table(bytes: Seq<u8>, pos: int, acc: Seq<(u32, u32, u32)>) -> Result<
    Seq<(u32, u32, u32)>,
    RenPyError,
>
    decreases bytes.len() - pos,
{
    if pos < 0 || pos + 12 > bytes.len() {
        Err(RenPyError::OutOfData)
    } else {
        let slot = le_u32_at(bytes, pos) as u32;
        let offset = le_u32_at(bytes, pos + 4) as u32;
        let length = le_u32_at(bytes, pos + 8) as u32;
        if slot == 0 {
            Ok(acc)
        } else {
            schunk_table(bytes, pos + 12, acc.push((slot, offset, length)))
        }
    }
}

/// The decompressed chunks of a table: each chunk's byte run inflated.
pub open spec fn schunks(
    bytes: Seq<u8>,
    table: Seq<(u32, u32, u32)>,
    acc: Seq<(u32, Seq<u8>)>,
) -> Result<Seq<(u32, Seq<u8>)>, RenPyError>
    decreases table.len(),
{
    if table.len() == 0 {
        Ok(acc)
    } else {
        let (slot, offset, length) = table[0];
        if offset + length > bytes.len() {
            Err(RenPyError::OutOfData)
        } else {
            match zlib_inflate(bytes.subrange(offset as int, offset + length)) {
                Option::None => Err(RenPyError::ChunkDecompressFailed),
                Option::Some(d) => schunks(
                    bytes,
                    table.subrange(1, table.len() as int),
                    acc.push((slot, d)),
                ),
            }
        }
    }
}

/// What loading a script image yields: the magic, the chunk table, then
/// each chunk decompressed.
pub open spec fn sscript(bytes: Seq<u8>) -> Result<Seq<(u32, Seq<u8>)>, RenPyError> {
    if bytes.len() < 10 {
        Err(RenPyError::ScriptInvalidHeader)
    } else if bytes.subrange(0, 10) != script_magic() {
        Err(RenPyError::ScriptInvalidHeader)
    } else {
        match schunk_table(bytes, 10, Seq::empty()) {
            Err(e) => Err(e),
            Ok(table) => schunks(bytes, table, Seq::empty()),
        }
    }
}

impl RenPyCompiledScriptChunk {
    /// Interpret this chunk's pickle stream.
    pub fn pickle(&self) -> (r: Result<Pickle, PickleError>)
        ensures
            match r {
                Ok(p) => parse_spec(self.data@) == Ok::<
                    crate::pickle::PickleVal,
                    PickleError,
                >(p.deep_view()),
                Err(e) => parse_spec(self.data@) == Err::<crate::pickle::PickleVal, PickleError>(
                    e,
                ),
            },
    {
        PickleParser::parse(self.data.as_slice())
    }
}

impl RenPyCompiledScript {
    /// Load a script container, exactly as [`sscript`] says.
    pub fn load(data: &[u8]) -> (r: Result<RenPyCompiledScript, RenPyError>)
        ensures
            match r {
                Ok(s) => sscript(data@) == Ok::<Seq<(u32, Seq<u8>)>, RenPyError>(
                    chunks_view(s.chunks@),
                ),
                Err(e) => sscript(data@) == Err::<Seq<(u32, Seq<u8>)>, RenPyError>(e),
            },
    {
        let ghost bytes = data@;
        let mut cur = ByteCursor::new(data);
        let magic = match cur.read_vec(10) {
            Ok(v) => v,
            Err(_) => {
                return Err(RenPyError::ScriptInvalidHeader);
            },
        };
        let expected: [u8; 10] = [0x52, 0x45, 0x4E, 0x50, 0x59, 0x20, 0x52, 0x50, 0x43, 0x32];
        proof {
            assert(expected@ =~= script_magic());
        }
        let mut mi: usize = 0;
        while mi < 10
            invariant
                cur.wf(),
                cur.bytes() == bytes,
                bytes == data@,
                magic@ == data@.subrange(0, 10),
                expected@ == script_magic(),
                magic@.len() == 10,
                mi <= 10,
                forall|j: int| 0 <= j < mi ==> magic@[j] == script_magic()[j],
            decreases 10 - mi,
        {
            if magic[mi] != expected[mi] {
                proof {
                    assert(data@.subrange(0, 10)[mi as int] != script_magic()[mi as int]);
                }
                return Err(RenPyError::ScriptInvalidHeader);
            }
            mi = mi + 1;
        }
        proof {
            assert(data@.subrange(0, 10) =~= script_magic());
        }
        let mut table: Vec<(u32, u32, u32)> = Vec::new();
        proof {
            assert(table@ =~= Seq::<(u32, u32, u32)>::empty());
        }
        loop
            invariant_except_break
                cur.wf(),
                cur.bytes() == bytes,
                bytes == data@,
                data@.len() >= 10,
                data@.subrange(0, 10) == script_magic(),
                schunk_table(bytes, 10, Seq::empty()) == schunk_table(
                    bytes,
                    cur.pos as int,
                    table@,
                ),
            ensures
                cur.wf(),
                cur.bytes() == bytes,
                bytes == data@,
                data@.len() >= 10,
                data@.subrange(0, 10) == script_magic(),
                schunk_table(bytes, 10, Seq::empty()) == Ok::<Seq<(u32, u32, u32)>, RenPyError>(
                    table@,
                ),
            decreases bytes.len() - cur.pos,
        {
            let slot = match cur.read_u32() {
                Ok(v) => v,
                Err(_) => {
                    return Err(RenPyError::OutOfData);
                },
            };
            let offset = match cur.read_u32() {
                Ok(v) => v,
                Err(_) => {
                    return Err(RenPyError::OutOfData);
                },
            };
            let length = match cur.read_u32() {
                Ok(v) => v,
                Err(_) => {
                    return Err(RenPyError::OutOfData);
                },
            };
            if slot == 0 {
                proof {
                    assert(schunk_table(bytes, cur.pos - 12, table@) == Ok::<
                        Seq<(u32, u32, u32)>,
                        RenPyError,
                    >(table@));
                }
                break ;
            }
            table.push((slot, offset, length));
        }
        let mut chunks: Vec<RenPyCompiledScriptChunk> = Vec::new();
        proof {
            assert(chunks_view(chunks@) =~= Seq::<(u32, Seq<u8>)>::empty());
            assert(table@.subrange(0, table@.len() as int) =~= table@);
        }
        let mut k: usize = 0;
        while k < table.len()
            invariant
                cur.wf(),
                cur.bytes() == bytes,
                bytes == data@,
                data@.len() >= 10,
                data@.subrange(0, 10) == script_magic(),
                schunk_table(bytes, 10, Seq::empty()) == Ok::<Seq<(u32, u32, u32)>, RenPyError>(
                    table@,
                ),
                k <= table@.len(),
                chunks@.len() == k,
                schunks(bytes, table@, Seq::empty()) == schunks(
                    bytes,
                    table@.subrange(k as int, table@.len() as int),
                    chunks_view(chunks@),
                ),
            decreases table@.len() - k,
        {
            let ghost rem = table@.subrange(k as int, table@.len() as int);
            proof {
                assert(rem[0] == table@[k as int]);
                assert(rem.subrange(1, rem.len() as int) =~= table@.subrange(
                    k + 1,
                    table@.len() as int,
                ));
            }
            let (slot, offset, length) = table[k];
            match cur.seek(offset as usize) {
                Ok(()) => (),
                Err(_) => {
                    return Err(RenPyError::OutOfData);
                },
            }
            let compressed = match cur.read_vec(length as usize) {
                Ok(v) => v,
                Err(_) => {
                    return Err(RenPyError::OutOfData);
                },
            };
            let decompressed = match zlib_decompress(&compressed) {
                Some(v) => v,
                None => {
                    return Err(RenPyError::ChunkDecompressFailed);
                },
            };
            let ghost pre = chunks@;
            chunks.push(RenPyCompiledScriptChunk { slot, data: decompressed });
            proof {
                assert(chunks_view(chunks@) =~= chunks_view(pre).push(
                    (chunks@[chunks@.len() - 1].slot, chunks@[chunks@.len() - 1].data@),
                ));
            }
            k = k + 1;
        }
        proof {
            assert(table@.subrange(k as int, table@.len() as int) =~= Seq::<
                (u32, u32, u32),
            >::empty());
        }
        Ok(RenPyCompiledScript { chunks })
    }

    /// The first chunk stored under `slot`, if any.
    pub fn chunk(self, slot: u32) -> (r: Option<RenPyCompiledScriptChunk>)
        ensures
            match r {
                Some(c) => c.slot == slot && exists|i: int|
                    0 <= i < chunks_view(self.chunks@).len() && #[trigger] chunks_view(
                        self.chunks@,
                    )[i] == (c.slot, c.data@) && forall|j: int|
                        0 <= j < i ==> (#[trigger] chunks_view(self.chunks@)[j]).0 != slot,
                None => forall|i: int|
                    0 <= i < chunks_view(self.chunks@).len() ==> (#[trigger] chunks_view(
                        self.chunks@,
                    )[i]).0 != slot,
            },
    {
        let mut chunks = self.chunks;
        let ghost mut k: int = 0;
        while chunks.len() > 0
            invariant
                chunks@.len() + k == chunks_view(self.chunks@).len(),
                0 <= k,
                forall|j: int|
                    0 <= j < k ==> (#[trigger] chunks_view(self.chunks@)[j]).0 != slot,
                forall|j: int|
                    0 <= j < chunks@.len() ==> #[trigger] chunks_view(chunks@)[j] == chunks_view(
                        self.chunks@,
                    )[j + k],
            decreases chunks@.len(),
        {
            let ghost pre = chunks@;
            let c = chunks.remove(0);
            proof {
                assert(chunks_view(pre)[0] == (c.slot, c.data@));
                assert(chunks_view(pre)[0] == chunks_view(self.chunks@)[k]);
                assert forall|j: int| 0 <= j < chunks@.len() implies #[trigger] chunks_view(
                    chunks@,
                )[j] == chunks_view(self.chunks@)[j + k + 1] by {
                    assert(chunks@[j] == pre[j + 1]);
                    assert(chunks_view(pre)[j + 1] == chunks_view(self.chunks@)[j + 1 + k]);
                }
            }
            if c.slot == slot {
                return Some(c);
            }
            proof {
                k = k + 1;
            }
        }
        None
    }
}

/// The unsigned reading a pickle number narrows to, if any: exactly
/// when [`crate::pickle::Pickle::try_u64`] succeeds.
pub open spec fn su64(v: PickleVal) -> Option<u64> {
    match v {
        PickleVal::Uint(x) => Some(x),
        PickleVal::Int(x) => if x >= 0 {
            Some(x as u64)
        } else {
            None
        },
        _ => None,
    }
}

/// The chunk records of one archive-index entry: each list element is a
/// sequence whose first two values are the chunk's offset and length,
/// both masked with `key`.
pub open spec fn sindex_chunks(items: Seq<PickleVal>, key: u64, acc: Seq<(u64, u64)>) -> Result<
    Seq<(u64, u64)>,
    RenPyError,
>
    decreases items.len(),
{
    if items.len() == 0 {
        Ok(acc)
    } else {
        let fields = match items[0] {
            PickleVal::List(f) => Some(f),
            PickleVal::Tuple(f) => Some(f),
            _ => None,
        };
        match fields {
            Option::None => Err(RenPyError::PickleParseFail),
            Option::Some(f) => {
                if f.len() < 2 {
                    Err(RenPyError::PickleParseFail)
                } else {
                    match (su64(f[0]), su64(f[1])) {
                        (Some(offset), Some(length)) => sindex_chunks(
                            items.subrange(1, items.len() as int),
                            key,
                            acc.push((offset ^ key, length ^ key)),
                        ),
                        _ => Err(RenPyError::PickleParseFail),
                    }
                }
            },
        }
    }
}

/// The archive index a decoded pickle stands for: a dictionary from
/// paths to chunk lists, with offsets and lengths unmasked by `key`.
pub open spec fn sarchive_index(
    d: Seq<(Seq<char>, PickleVal)>,
    key: u64,
    acc: Seq<(Seq<char>, Seq<(u64, u64)>)>,
) -> Result<Seq<(Seq<char>, Seq<(u64, u64)>)>, RenPyError>
    decreases d.len(),
{
    if d.len() == 0 {
        Ok(acc)
    } else {
        let items = match d[0].1 {
            PickleVal::List(items) => Some(items),
            PickleVal::Tuple(items) => Some(items),
            _ => None,
        };
        match items {
            Option::None => Err(RenPyError::PickleParseFail),
            Option::Some(items) => match sindex_chunks(items, key, Seq::empty()) {
                Err(e) => Err(e),
                Ok(chunks) => sarchive_index(
                    d.subrange(1, d.len() as int),
                    key,
                    acc.push((d[0].0, chunks)),
                ),
            },
        }
    }
}

/// Model of a narrowed archive index.
pub open spec fn index_view(s: Seq<(String, Vec<(u64, u64)>)>) -> Seq<
    (Seq<char>, Seq<(u64, u64)>),
> {
    Seq::new(s.len(), |i: int| (s[i].0@, s[i].1@))
}

/// Narrow the chunk records of one index entry, exactly as
/// [`sindex_chunks`] says.
fn index_chunks(items: Vec<Pickle>, key: u64) -> (r: Result<Vec<(u64, u64)>, RenPyError>)
    ensures
        match r {
            Ok(v) => sindex_chunks(seq_view(items@), key, Seq::empty()) == Ok::<
                Seq<(u64, u64)>,
                RenPyError,
            >(v@),
            Err(e) => sindex_chunks(seq_view(items@), key, Seq::empty()) == Err::<
                Seq<(u64, u64)>,
                RenPyError,
            >(e),
        },
{
    let ghost full = seq_view(items@);
    proof {
        lemma_seq_view(items@);
        assert(full.subrange(0, full.len() as int) =~= full);
    }
    let mut out: Vec<(u64, u64)> = Vec::new();
    let mut rem = items;
    let ghost mut k: int = 0;
    while rem.len() > 0
        invariant
            full == seq_view(items@),
            0 <= k,
            k + rem@.len() == full.len(),
            out@.len() == k,
            forall|j: int|
                0 <= j < rem@.len() ==> #[trigger] rem@[j].deep_view() == full[j + k],
            sindex_chunks(full, key, Seq::empty()) == sindex_chunks(
                full.subrange(k, full.len() as int),
                key,
                out@,
            ),
        decreases rem@.len(),
    {
        let ghost pre = rem@;
        let chunk = rem.remove(0);
        proof {
            assert(chunk.deep_view() == full[k]);
            assert forall|j: int| 0 <= j < rem@.len() implies #[trigger] rem@[j].deep_view()
                == full[j + k + 1] by {
                assert(rem@[j] == pre[j + 1]);
            }
            assert(full.subrange(k, full.len() as int)[0] == full[k]);
            assert(full.subrange(k, full.len() as int).subrange(
                1,
                full.len() - k,
            ) =~= full.subrange(k + 1, full.len() as int));
        }
        let fields = match chunk.try_items() {
            Ok(f) => f,
            Err(_) => {
                return Err(RenPyError::PickleParseFail);
            },
        };
        let ghost fv = seq_view(fields@);
        proof {
            lemma_seq_view(fields@);
        }
        if fields.len() < 2 {
            return Err(RenPyError::PickleParseFail);
        }
        let mut fields = fields;
        let ghost pre_fields = fields@;
        let second = fields.remove(1);
        let first = fields.remove(0);
        proof {
            assert(second.deep_view() == fv[1]);
            assert(fields@ == pre_fields.remove(1).remove(0));
            assert(first.deep_view() == fv[0]);
        }
        let offset = match first.try_u64() {
            Ok(v) => v,
            Err(_) => {
                return Err(RenPyError::PickleParseFail);
            },
        };
        let length = match second.try_u64() {
            Ok(v) => v,
            Err(_) => {
                return Err(RenPyError::PickleParseFail);
            },
        };
        out.push((offset ^ key, length ^ key));
        proof {
            k = k + 1;
        }
    }
    proof {
        assert(full.subrange(k, full.len() as int) =~= Seq::<PickleVal>::empty());
    }
    Ok(out)
}

/// Narrow a decoded index pickle into path and chunk records, exactly
/// as [`sarchive_index`] says; anything but a dictionary of chunk lists
/// fails as a parse failure.
pub fn archive_index(pickle: Pickle, key: u64) -> (r: Result<
    Vec<(String, Vec<(u64, u64)>)>,
    RenPyError,
>)
    ensures
        match r {
            Ok(v) => pickle.deep_view() matches PickleVal::Dict(d) && sarchive_index(
                d,
                key,
                Seq::empty(),
            ) == Ok::<Seq<(Seq<char>, Seq<(u64, u64)>)>, RenPyError>(index_view(v@)),
            Err(e) => match pickle.deep_view() {
                PickleVal::Dict(d) => sarchive_index(d, key, Seq::empty()) == Err::<
                    Seq<(Seq<char>, Seq<(u64, u64)>)>,
                    RenPyError,
                >(e),
                _ => e == RenPyError::PickleParseFail,
            },
        },
{
    let dict = match pickle.try_dict() {
        Ok(d) => d,
        Err(_) => {
            return Err(RenPyError::PickleParseFail);
        },
    };
    let ghost full = dict_view(dict@);
    proof {
        lemma_dict_view(dict@);
        assert(full.subrange(0, full.len() as int) =~= full);
    }
    let mut out: Vec<(String, Vec<(u64, u64)>)> = Vec::new();
    proof {
        assert(index_view(out@) =~= Seq::<(Seq<char>, Seq<(u64, u64)>)>::empty());
    }
    let mut rem = dict;
    let ghost mut k: int = 0;
    while rem.len() > 0
        invariant
            pickle.deep_view() == PickleVal::Dict(full),
            0 <= k,
            k + rem@.len() == full.len(),
            out@.len() == k,
            forall|j: int|
                0 <= j < rem@.len() ==> #[trigger] dict_view(rem@)[j] == full[j + k],
            dict_view(rem@).len() == rem@.len(),
            sarchive_index(full, key, Seq::empty()) == sarchive_index(
                full.subrange(k, full.len() as int),
                key,
                index_view(out@),
            ),
        decreases rem@.len(),
    {
        let ghost pre = rem@;
        let (path, chunk_list) = rem.remove(0);
        proof {
            lemma_dict_view(pre);
            lemma_dict_view(rem@);
            assert(dict_view(pre)[0] == (path@, chunk_list.deep_view()));
            assert forall|j: int| 0 <= j < rem@.len() implies #[trigger] dict_view(rem@)[j]
                == full[j + k + 1] by {
                assert(rem@[j] == pre[j + 1]);
                assert(dict_view(pre)[j + 1] == full[j + 1 + k]);
            }
            assert(full.subrange(k, full.len() as int)[0] == full[k]);
            assert(full.subrange(k, full.len() as int).subrange(
                1,
                full.len() - k,
            ) =~= full.subrange(k + 1, full.len() as int));
        }
        let items = match chunk_list.try_items() {
            Ok(items) => items,
            Err(_) => {
                return Err(RenPyError::PickleParseFail);
            },
        };
        let chunks = match index_chunks(items, key) {
            Ok(c) => c,
            Err(e) => {
                return Err(e);
            },
        };
        let ghost pre_out = out@;
        out.push((path, chunks));
        proof {
            assert(index_view(out@) =~= index_view(pre_out).push(
                (out@[out@.len() - 1].0@, out@[out@.len() - 1].1@),
            ));
            k = k + 1;
        }
    }
    proof {
        assert(full.subrange(k, full.len() as int) =~= Seq::<(Seq<char>, PickleVal)>::empty());
    }
    Ok(out)
}

} // verus!
