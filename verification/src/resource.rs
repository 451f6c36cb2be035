//! The resource container loader: a fixed header, a string table, an
//! external-resource table, an internal-resource index, and one
//! variant-decoded property list per internal entry at its recorded
//! offset.
//!
//! [`sload`] is the exact meaning of a container image, including the
//! preserved schema-3 quirks: the raw external-resource count is halved,
//! one extra reserved field follows the table, and index offsets are
//! four bytes rather than eight.  [`ResourceContainer::load`] is proved
//! to return exactly what it says, for the uncompressed path and, with
//! the block transform of [`crate::compress`] in front, for the
//! compressed one.

use vstd::prelude::*;

verus! {

use crate::bytes::{ByteCursor, le_u32_at, le_u64_at, as_i32};
use crate::variant::{
    Variant,
    VariantVal,
    ResourceError,
    sgstr,
    sarr_strings,
    strs_view,
    read_gstring,
    read_strings,
};
use crate::compress::{GodotCompressedReader, CompressionError, scompressed};

/// Flag bit: scene identifiers are names.
pub const FLAG_NAMED_SCENE_IDS: u32 = 1;

/// Flag bit: the container records unique identifiers.
pub const FLAG_UIDS: u32 = 2;

/// Flag bit: reals are stored as 64-bit values.
pub const FLAG_REAL_T_IS_DOUBLE: u32 = 4;

/// Flag bit: a script class name follows the header.
pub const FLAG_HAS_SCRIPT_CLASS: u32 = 8;

/// Count of reserved 4-byte header fields.
pub const RESERVED_FIELDS: u32 = 11;

/// The header's flag bitmask, kept verbatim.
#[derive(Debug, Clone, Copy, PartialEq, Eq, Structural)]
pub struct ResourceFlags {
    pub bits: u32,
}

impl ResourceFlags {
    pub open spec fn spec_intersects(&self, mask: u32) -> bool {
        self.bits & mask != 0
    }

    pub fn from_bits_retain(bits: u32) -> (r: ResourceFlags)
        ensures
            r.bits == bits,
    {
        ResourceFlags { bits }
    }

    /// True when any bit of `mask` is set.
    pub fn intersects(&self, mask: u32) -> (r: bool)
        ensures
            r == self.spec_intersects(mask),
    {
        self.bits & mask != 0
    }
}

/// A fully loaded container.
#[derive(Debug)]
pub struct ResourceContainer {
    pub version: (u32, u32),
    pub bin_version: i32,
    pub resource_type: String,
    pub flags: ResourceFlags,
    pub uid: Option<u64>,
    pub script_class: Option<String>,
    pub string_table: Vec<String>,
    pub external_resources: Vec<(String, String, Option<u64>)>,
    pub internal_resources: Vec<(String, String, Vec<(u32, Variant)>)>,
}

/// Mathematical model of a loaded container.
#[verifier::ext_equal]
pub struct ContainerVal {
    pub version: (u32, u32),
    pub bin_version: i32,
    pub resource_type: Seq<char>,
    pub flags: u32,
    pub uid: Option<u64>,
    pub script_class: Option<Seq<char>>,
    pub string_table: Seq<Seq<char>>,
    pub external_resources: Seq<(Seq<char>, Seq<char>, Option<u64>)>,
    pub internal_resources: Seq<(Seq<char>, Seq<char>, Seq<(u32, VariantVal)>)>,
}

/// Models of an external-resource table, an internal property list, and
/// the internal-resource list.
pub open spec fn ext_view(s: Seq<(String, String, Option<u64>)>) -> Seq<
    (Seq<char>, Seq<char>, Option<u64>),
> {
    Seq::new(s.len(), |i: int| (s[i].0@, s[i].1@, s[i].2))
}

pub open spec fn props_view(s: Seq<(u32, Variant)>) -> Seq<(u32, VariantVal)> {
    Seq::new(s.len(), |i: int| (s[i].0, s[i].1.deep_view()))
}

pub open spec fn inres_view(s: Seq<(String, String, Vec<(u32, Variant)>)>) -> Seq<
    (Seq<char>, Seq<char>, Seq<(u32, VariantVal)>),
> {
    Seq::new(s.len(), |i: int| (s[i].0@, s[i].1@, props_view(s[i].2@)))
}

impl ResourceContainer {
    /// The mathematical value this container stands for.
    pub open spec fn deep_view(&self) -> ContainerVal {
        ContainerVal {
            version: self.version,
            bin_version: self.bin_version,
            resource_type: self.resource_type@,
            flags: self.flags.bits,
            uid: self.uid,
            script_class: match self.script_class {
                Some(ref s) => Some(s@),
                None => None,
            },
            string_table: strs_view(self.string_table@),
            external_resources: ext_view(self.external_resources@),
            internal_resources: inres_view(self.internal_resources@),
        }
    }
}

/// `n` external-resource records from `pos`: type, path, and a unique
/// identifier when the container records them.
pub open spec fn sext_resources(
    bytes: Seq<u8>,
    pos: int,
    n: int,
    uids: bool,
    acc: Seq<(Seq<char>, Seq<char>, Option<u64>)>,
) -> Result<(Seq<(Seq<char>, Seq<char>, Option<u64>)>, int), ResourceError>
    decreases n,
{
    if n <= 0 {
        Ok((acc, pos))
    } else {
        match sgstr(bytes, pos) {
            Err(e) => Err(e),
            Ok((ty, p2)) => match sgstr(bytes, p2) {
                Err(e) => Err(e),
                Ok((path, p3)) => {
                    if uids {
                        if p3 + 8 > bytes.len() {
                            Err(ResourceError::OutOfData)
                        } else {
                            sext_resources(
                                bytes,
                                p3 + 8,
                                n - 1,
                                uids,
                                acc.push((ty, path, Some(le_u64_at(bytes, p3) as u64))),
                            )
                        }
                    } else {
                        sext_resources(bytes, p3, n - 1, uids, acc.push((ty, path, None)))
                    }
                },
            },
        }
    }
}

/// `n` internal-resource index records from `pos`: a path and a byte
/// offset, stored as four bytes under schema 3 and eight under schema 5.
pub open spec fn sint_index(
    bytes: Seq<u8>,
    pos: int,
    n: int,
    wide_offsets: bool,
    acc: Seq<(Seq<char>, u64)>,
) -> Result<(Seq<(Seq<char>, u64)>, int), ResourceError>
    decreases n,
{
    if n <= 0 {
        Ok((acc, pos))
    } else {
        match sgstr(bytes, pos) {
            Err(e) => Err(e),
            Ok((path, p2)) => {
                if wide_offsets {
                    if p2 + 8 > bytes.len() {
                        Err(ResourceError::OutOfData)
                    } else {
                        sint_index(
                            bytes,
                            p2 + 8,
                            n - 1,
                            wide_offsets,
                            acc.push((path, le_u64_at(bytes, p2) as u64)),
                        )
                    }
                } else {
                    if p2 + 4 > bytes.len() {
                        Err(ResourceError::OutOfData)
                    } else {
                        sint_index(
                            bytes,
                            p2 + 4,
                            n - 1,
                            wide_offsets,
                            acc.push((path, le_u32_at(bytes, p2) as u64)),
                        )
                    }
                }
            },
        }
    }
}

/// `n` properties from `pos`: a name index and a variant each.
pub open spec fn sprops(
    bytes: Seq<u8>,
    pos: int,
    wide: bool,
    n: int,
    acc: Seq<(u32, VariantVal)>,
) -> Result<(Seq<(u32, VariantVal)>, int), ResourceError>
    decreases bytes.len() - pos, n,
{
    if n <= 0 {
        Ok((acc, pos))
    } else if pos + 4 > bytes.len() {
        Err(ResourceError::OutOfData)
    } else {
        let name_index = le_u32_at(bytes, pos) as u32;
        match crate::variant::sdecode(bytes, pos + 4, wide) {
            Err(e) => Err(e),
            Ok((v, p2)) => {
                if pos < p2 <= bytes.len() {
                    sprops(bytes, p2, wide, n - 1, acc.push((name_index, v)))
                } else {
                    Err(ResourceError::OutOfData)
                }
            },
        }
    }
}

/// One internal resource per index entry: seek to its offset, read its
/// type, then its property list.
pub open spec fn sentries(
    bytes: Seq<u8>,
    entries: Seq<(Seq<char>, u64)>,
    wide: bool,
    acc: Seq<(Seq<char>, Seq<char>, Seq<(u32, VariantVal)>)>,
) -> Result<Seq<(Seq<char>, Seq<char>, Seq<(u32, VariantVal)>)>, ResourceError>
    decreases entries.len(),
{
    if entries.len() == 0 {
        Ok(acc)
    } else {
        let off = entries[0].1 as int;
        if off > bytes.len() {
            Err(ResourceError::OutOfData)
        } else {
            match sgstr(bytes, off) {
                Err(e) => Err(e),
                Ok((ty, p2)) => {
                    if p2 + 4 > bytes.len() {
                        Err(ResourceError::OutOfData)
                    } else {
                        match sprops(bytes, p2 + 4, wide, le_u32_at(bytes, p2), Seq::empty()) {
                            Err(e) => Err(e),
                            Ok((props, _)) => sentries(
                                bytes,
                                entries.subrange(1, entries.len() as int),
                                wide,
                                acc.push((entries[0].0, ty, props)),
                            ),
                        }
                    }
                },
            }
        }
    }
}

/// The container grammar from the endianness flag onward, starting at
/// `start`: flags and optional fields, the string table, the
/// external-resource table with its schema-3 halved count and extra
/// reserved field, the internal-resource index, and the per-entry
/// property lists.
#[verifier::opaque]
pub open spec fn sload_body(bytes: Seq<u8>, start: int) -> Result<ContainerVal, ResourceError> {
    if start + 20 > bytes.len() {
        Err(ResourceError::OutOfData)
    } else if le_u32_at(bytes, start) > 0 {
        Err(ResourceError::BigEndianNotSupported)
    } else {
        let wide = le_u32_at(bytes, start + 4) > 0;
        let ver_major = le_u32_at(bytes, start + 8) as u32;
        let ver_minor = le_u32_at(bytes, start + 12) as u32;
        let bin_version = as_i32(le_u32_at(bytes, start + 16));
        if bin_version != 3 && bin_version != 5 {
            Err(ResourceError::UnsupportedVersion(bin_version as i32))
        } else {
            match sgstr(bytes, start + 20) {
                Err(e) => Err(e),
                Ok((rtype, p2)) => {
                    if p2 + 12 > bytes.len() {
                        Err(ResourceError::OutOfData)
                    } else {
                        let flags = le_u32_at(bytes, p2 + 8) as u32;
                        let p3 = p2 + 12;
                        let uid_r: Result<(Option<u64>, int), ResourceError> = if flags & FLAG_UIDS
                            != 0 {
                            if p3 + 8 > bytes.len() {
                                Err(ResourceError::OutOfData)
                            } else {
                                Ok((Some(le_u64_at(bytes, p3) as u64), p3 + 8))
                            }
                        } else {
                            if p3 + 4 > bytes.len() {
                                Err(ResourceError::OutOfData)
                            } else {
                                Ok((None, p3 + 4))
                            }
                        };
                        match uid_r {
                            Err(e) => Err(e),
                            Ok((uid, p4)) => {
                                let sc_r: Result<(Option<Seq<char>>, int), ResourceError> = if flags
                                    & FLAG_HAS_SCRIPT_CLASS != 0 {
                                    match sgstr(bytes, p4) {
                                        Err(e) => Err(e),
                                        Ok((sc, p5)) => Ok((Some(sc), p5)),
                                    }
                                } else {
                                    Ok((None, p4))
                                };
                                match sc_r {
                                    Err(e) => Err(e),
                                    Ok((script_class, p5)) => {
                                        let p6 = p5 + 4 * (RESERVED_FIELDS as int);
                                        if p6 + 4 > bytes.len() {
                                            Err(ResourceError::OutOfData)
                                        } else {
                                            match sarr_strings(
                                                bytes,
                                                p6 + 4,
                                                le_u32_at(bytes, p6),
                                                Seq::empty(),
                                            ) {
                                                Err(e) => Err(e),
                                                Ok((table, p7)) => {
                                                    if p7 + 4 > bytes.len() {
                                                        Err(ResourceError::OutOfData)
                                                    } else {
                                                        let raw_ext = le_u32_at(bytes, p7);
                                                        let n_ext = if bin_version == 3 {
                                                            raw_ext / 2
                                                        } else {
                                                            raw_ext
                                                        };
                                                        match sext_resources(
                                                            bytes,
                                                            p7 + 4,
                                                            n_ext,
                                                            flags & FLAG_UIDS != 0,
                                                            Seq::empty(),
                                                        ) {
                                                            Err(e) => Err(e),
                                                            Ok((exts, p8a)) => {
                                                                let p8 = if bin_version == 3 {
                                                                    p8a + 4
                                                                } else {
                                                                    p8a
                                                                };
                                                                if p8 + 4 > bytes.len() {
                                                                    Err(ResourceError::OutOfData)
                                                                } else {
                                                                    match sint_index(
                                                                        bytes,
                                                                        p8 + 4,
                                                                        le_u32_at(bytes, p8),
                                                                        bin_version == 5,
                                                                        Seq::empty(),
                                                                    ) {
                                                                        Err(e) => Err(e),
                                                                        Ok((index, _)) => match sentries(
                                                                            bytes,
                                                                            index,
                                                                            wide,
                                                                            Seq::empty(),
                                                                        ) {
                                                                            Err(e) => Err(e),
                                                                            Ok(inres) => Ok(
                                                                                ContainerVal {
                                                                                    version: (
                                                                                        ver_major,
                                                                                        ver_minor,
                                                                                    ),
                                                                                    bin_version:
                                                                                        bin_version as i32,
                                                                                    resource_type:
                                                                                        rtype,
                                                                                    flags,
                                                                                    uid,
                                                                                    script_class,
                                                                                    string_table:
                                                                                        table,
                                                                                    external_resources:
                                                                                        exts,
                                                                                    internal_resources:
                                                                                        inres,
                                                                                },
                                                                            ),
                                                                        },
                                                                    }
                                                                }
                                                            },
                                                        }
                                                    }
                                                },
                                            }
                                        }
                                    },
                                }
                            },
                        }
                    }
                },
            }
        }
    }
}

/// The identifier bytes of the two container forms.
pub open spec fn uncompressed_magic() -> Seq<u8> {
    seq![0x52u8, 0x53u8, 0x52u8, 0x43u8]
}

pub open spec fn compressed_magic() -> Seq<u8> {
    seq![0x52u8, 0x53u8, 0x43u8, 0x43u8]
}

/// The resource error a compression failure surfaces as.
pub open spec fn spec_compression_to_resource(e: CompressionError) -> ResourceError {
    if e == CompressionError::OutOfData {
        ResourceError::OutOfData
    } else {
        ResourceError::DecompressionFailed
    }
}

/// What loading a container image yields: the body grammar after the
/// uncompressed magic, or after the compressed stream's block transform.
pub open spec fn sload(bytes: Seq<u8>) -> Result<ContainerVal, ResourceError> {
    if bytes.len() < 4 {
        Err(ResourceError::OutOfData)
    } else if bytes.subrange(0, 4) == uncompressed_magic() {
        sload_body(bytes, 4)
    } else if bytes.subrange(0, 4) == compressed_magic() {
        match scompressed(bytes, 4) {
            Err(e) => Err(spec_compression_to_resource(e)),
            Ok((_, _, content)) => sload_body(content, 0),
        }
    } else {
        Err(ResourceError::MalformedHeader)
    }
}

/// Model of an internal-resource index.
pub open spec fn iidx_view(s: Seq<(String, u64)>) -> Seq<(Seq<char>, u64)> {
    Seq::new(s.len(), |i: int| (s[i].0@, s[i].1))
}

/// Read `n` external-resource records, exactly as [`sext_resources`] says.
fn read_ext_resources(cur: &mut ByteCursor, n: u32, uids: bool) -> (r: Result<
    Vec<(String, String, Option<u64>)>,
    ResourceError,
>)
    requires
        old(cur).wf(),
    ensures
        final(cur).bytes() == old(cur).bytes(),
        final(cur).wf(),
        match r {
            Ok(v) => sext_resources(old(cur).bytes(), old(cur).pos as int, n as int, uids, Seq::empty())
                matches Ok(pr) && pr.0 == ext_view(v@) && pr.1 == final(cur).pos,
            Err(e) => sext_resources(old(cur).bytes(), old(cur).pos as int, n as int, uids, Seq::empty())
                == Err::<(Seq<(Seq<char>, Seq<char>, Option<u64>)>, int), ResourceError>(e),
        },
{
    let ghost bytes = old(cur).bytes();
    let ghost p0 = old(cur).pos as int;
    let mut out: Vec<(String, String, Option<u64>)> = Vec::new();
    proof {
        assert(ext_view(out@) =~= Seq::<(Seq<char>, Seq<char>, Option<u64>)>::empty());
    }
    let mut i: u32 = 0;
    while i < n
        invariant
            cur.wf(),
            cur.bytes() == bytes,
            bytes == old(cur).bytes(),
            p0 == old(cur).pos,
            i <= n,
            out@.len() == i,
            sext_resources(bytes, p0, n as int, uids, Seq::empty()) == sext_resources(
                bytes,
                cur.pos as int,
                n - i,
                uids,
                ext_view(out@),
            ),
        decreases n - i,
    {
        let ty = match read_gstring(cur) {
            Ok(s) => s,
            Err(e) => {
                return Err(e);
            },
        };
        let path = match read_gstring(cur) {
            Ok(s) => s,
            Err(e) => {
                return Err(e);
            },
        };
        let uid: Option<u64> = if uids {
            match cur.read_u64() {
                Ok(v) => Some(v),
                Err(_) => {
                    return Err(ResourceError::OutOfData);
                },
            }
        } else {
            None
        };
        let ghost pre = out@;
        out.push((ty, path, uid));
        proof {
            assert(ext_view(out@) =~= ext_view(pre).push(
                (out@[out@.len() - 1].0@, out@[out@.len() - 1].1@, out@[out@.len() - 1].2),
            ));
        }
        i = i + 1;
    }
    Ok(out)
}

/// Read `n` internal-resource index records, exactly as [`sint_index`] says.
fn read_int_index(cur: &mut ByteCursor, n: u32, wide_offsets: bool) -> (r: Result<
    Vec<(String, u64)>,
    ResourceError,
>)
    requires
        old(cur).wf(),
    ensures
        final(cur).bytes() == old(cur).bytes(),
        final(cur).wf(),
        match r {
            Ok(v) => sint_index(old(cur).bytes(), old(cur).pos as int, n as int, wide_offsets, Seq::empty())
                matches Ok(pr) && pr.0 == iidx_view(v@) && pr.1 == final(cur).pos,
            Err(e) => sint_index(old(cur).bytes(), old(cur).pos as int, n as int, wide_offsets, Seq::empty())
                == Err::<(Seq<(Seq<char>, u64)>, int), ResourceError>(e),
        },
{
    let ghost bytes = old(cur).bytes();
    let ghost p0 = old(cur).pos as int;
    let mut out: Vec<(String, u64)> = Vec::new();
    proof {
        assert(iidx_view(out@) =~= Seq::<(Seq<char>, u64)>::empty());
    }
    let mut i: u32 = 0;
    while i < n
        invariant
            cur.wf(),
            cur.bytes() == bytes,
            bytes == old(cur).bytes(),
            p0 == old(cur).pos,
            i <= n,
            out@.len() == i,
            sint_index(bytes, p0, n as int, wide_offsets, Seq::empty()) == sint_index(
                bytes,
                cur.pos as int,
                n - i,
                wide_offsets,
                iidx_view(out@),
            ),
        decreases n - i,
    {
        let path = match read_gstring(cur) {
            Ok(s) => s,
            Err(e) => {
                return Err(e);
            },
        };
        let off: u64 = if wide_offsets {
            match cur.read_u64() {
                Ok(v) => v,
                Err(_) => {
                    return Err(ResourceError::OutOfData);
                },
            }
        } else {
            match cur.read_u32() {
                Ok(v) => v as u64,
                Err(_) => {
                    return Err(ResourceError::OutOfData);
                },
            }
        };
        let ghost pre = out@;
        out.push((path, off));
        proof {
            assert(iidx_view(out@) =~= iidx_view(pre).push(
                (out@[out@.len() - 1].0@, out@[out@.len() - 1].1),
            ));
        }
        i = i + 1;
    }
    Ok(out)
}

/// Read `n` properties, exactly as [`sprops`] says.
fn read_props(cur: &mut ByteCursor, bin_version: i32, wide: bool, n: u32) -> (r: Result<
    Vec<(u32, Variant)>,
    ResourceError,
>)
    requires
        old(cur).wf(),
    ensures
        final(cur).bytes() == old(cur).bytes(),
        final(cur).wf(),
        match r {
            Ok(v) => sprops(old(cur).bytes(), old(cur).pos as int, wide, n as int, Seq::empty())
                matches Ok(pr) && pr.0 == props_view(v@) && pr.1 == final(cur).pos,
            Err(e) => sprops(old(cur).bytes(), old(cur).pos as int, wide, n as int, Seq::empty())
                == Err::<(Seq<(u32, VariantVal)>, int), ResourceError>(e),
        },
{
    let ghost bytes = old(cur).bytes();
    let ghost p0 = old(cur).pos as int;
    let mut out: Vec<(u32, Variant)> = Vec::new();
    proof {
        assert(props_view(out@) =~= Seq::<(u32, VariantVal)>::empty());
    }
    let mut i: u32 = 0;
    while i < n
        invariant
            cur.wf(),
            cur.bytes() == bytes,
            bytes == old(cur).bytes(),
            p0 == old(cur).pos,
            i <= n,
            out@.len() == i,
            sprops(bytes, p0, wide, n as int, Seq::empty()) == sprops(
                bytes,
                cur.pos as int,
                wide,
                n - i,
                props_view(out@),
            ),
        decreases n - i,
    {
        let name_index = match cur.read_u32() {
            Ok(v) => v,
            Err(_) => {
                return Err(ResourceError::OutOfData);
            },
        };
        let v = match Variant::read(cur, bin_version, wide) {
            Ok(v) => v,
            Err(e) => {
                return Err(e);
            },
        };
        let ghost pre = out@;
        out.push((name_index, v));
        proof {
            assert(props_view(out@) =~= props_view(pre).push(
                (out@[out@.len() - 1].0, out@[out@.len() - 1].1.deep_view()),
            ));
        }
        i = i + 1;
    }
    Ok(out)
}

/// Decode one internal resource per index entry, exactly as
/// [`sentries`] says.
fn read_entries(cur: &mut ByteCursor, index: &Vec<(String, u64)>, bin_version: i32, wide: bool) -> (r: Result<
    Vec<(String, String, Vec<(u32, Variant)>)>,
    ResourceError,
>)
    requires
        old(cur).wf(),
    ensures
        final(cur).bytes() == old(cur).bytes(),
        final(cur).wf(),
        match r {
            Ok(v) => sentries(old(cur).bytes(), iidx_view(index@), wide, Seq::empty()) == Ok::<
                Seq<(Seq<char>, Seq<char>, Seq<(u32, VariantVal)>)>,
                ResourceError,
            >(inres_view(v@)),
            Err(e) => sentries(old(cur).bytes(), iidx_view(index@), wide, Seq::empty()) == Err::<
                Seq<(Seq<char>, Seq<char>, Seq<(u32, VariantVal)>)>,
                ResourceError,
            >(e),
        },
{
    let ghost bytes = old(cur).bytes();
    let mut out: Vec<(String, String, Vec<(u32, Variant)>)> = Vec::new();
    proof {
        assert(inres_view(out@) =~= Seq::<(Seq<char>, Seq<char>, Seq<(u32, VariantVal)>)>::empty());
        assert(iidx_view(index@).subrange(0, iidx_view(index@).len() as int) =~= iidx_view(
            index@,
        ));
    }
    let mut k: usize = 0;
    while k < index.len()
        invariant
            cur.wf(),
            cur.bytes() == bytes,
            bytes == old(cur).bytes(),
            k <= index@.len(),
            out@.len() == k,
            sentries(bytes, iidx_view(index@), wide, Seq::empty()) == sentries(
                bytes,
                iidx_view(index@).subrange(k as int, iidx_view(index@).len() as int),
                wide,
                inres_view(out@),
            ),
        decreases index@.len() - k,
    {
        let ghost rem = iidx_view(index@).subrange(k as int, iidx_view(index@).len() as int);
        proof {
            assert(rem[0] == (index@[k as int].0@, index@[k as int].1));
            assert(rem.subrange(1, rem.len() as int) =~= iidx_view(index@).subrange(
                k + 1,
                iidx_view(index@).len() as int,
            ));
        }
        let off = index[k].1;
        let blen = cur.data.len();
        if off > blen as u64 {
            return Err(ResourceError::OutOfData);
        }
        match cur.seek(off as usize) {
            Ok(()) => (),
            Err(_) => {
                return Err(ResourceError::OutOfData);
            },
        }
        let ty = match read_gstring(cur) {
            Ok(s) => s,
            Err(e) => {
                return Err(e);
            },
        };
        let np = match cur.read_u32() {
            Ok(v) => v,
            Err(_) => {
                return Err(ResourceError::OutOfData);
            },
        };
        let props = match read_props(cur, bin_version, wide, np) {
            Ok(v) => v,
            Err(e) => {
                return Err(e);
            },
        };
        let path = crate::pickle::clone_string(&index[k].0);
        let ghost pre = out@;
        out.push((path, ty, props));
        proof {
            assert(inres_view(out@) =~= inres_view(pre).push(
                (
                    out@[out@.len() - 1].0@,
                    out@[out@.len() - 1].1@,
                    props_view(out@[out@.len() - 1].2@),
                ),
            ));
        }
        k = k + 1;
    }
    proof {
        assert(iidx_view(index@).subrange(k as int, iidx_view(index@).len() as int)
            =~= Seq::<(Seq<char>, u64)>::empty());
    }
    Ok(out)
}

/// Parse the container body grammar starting at `start`, exactly as
/// [`sload_body`] says.
#[verifier::rlimit(100)]
fn parse_body(data: &[u8], start: usize) -> (r: Result<ResourceContainer, ResourceError>)
    ensures
        match r {
            Ok(c) => sload_body(data@, start as int) == Ok::<ContainerVal, ResourceError>(
                c.deep_view(),
            ),
            Err(e) => sload_body(data@, start as int) == Err::<ContainerVal, ResourceError>(e),
        },
{
    proof {
        reveal(sload_body);
    }
    let mut cur = ByteCursor::new(data);
    match cur.seek(start) {
        Ok(()) => (),
        Err(_) => {
            return Err(ResourceError::OutOfData);
        },
    }
    let big_endian = match cur.read_u32() {
        Ok(v) => v,
        Err(_) => {
            return Err(ResourceError::OutOfData);
        },
    };
    let use_real64 = match cur.read_u32() {
        Ok(v) => v,
        Err(_) => {
            return Err(ResourceError::OutOfData);
        },
    };
    let ver_major = match cur.read_u32() {
        Ok(v) => v,
        Err(_) => {
            return Err(ResourceError::OutOfData);
        },
    };
    let ver_minor = match cur.read_u32() {
        Ok(v) => v,
        Err(_) => {
            return Err(ResourceError::OutOfData);
        },
    };
    let bin_version = match cur.read_i32() {
        Ok(v) => v,
        Err(_) => {
            return Err(ResourceError::OutOfData);
        },
    };
    if big_endian > 0 {
        return Err(ResourceError::BigEndianNotSupported);
    }
    let wide = use_real64 > 0;
    if bin_version != 3 && bin_version != 5 {
        return Err(ResourceError::UnsupportedVersion(bin_version));
    }
    let resource_type = match read_gstring(&mut cur) {
        Ok(s) => s,
        Err(e) => {
            return Err(e);
        },
    };
    let _metadata_offset = match cur.read_u64() {
        Ok(v) => v,
        Err(_) => {
            return Err(ResourceError::OutOfData);
        },
    };
    let flag_bits = match cur.read_u32() {
        Ok(v) => v,
        Err(_) => {
            return Err(ResourceError::OutOfData);
        },
    };
    let flags = ResourceFlags::from_bits_retain(flag_bits);
    let uid: Option<u64> = if flags.intersects(FLAG_UIDS) {
        match cur.read_u64() {
            Ok(v) => Some(v),
            Err(_) => {
                return Err(ResourceError::OutOfData);
            },
        }
    } else {
        match cur.skip(4) {
            Ok(()) => None,
            Err(_) => {
                return Err(ResourceError::OutOfData);
            },
        }
    };
    let script_class: Option<String> = if flags.intersects(FLAG_HAS_SCRIPT_CLASS) {
        match read_gstring(&mut cur) {
            Ok(s) => Some(s),
            Err(e) => {
                return Err(e);
            },
        }
    } else {
        None
    };
    match cur.skip(44) {
        Ok(()) => (),
        Err(_) => {
            return Err(ResourceError::OutOfData);
        },
    }
    let n_table = match cur.read_u32() {
        Ok(v) => v,
        Err(_) => {
            return Err(ResourceError::OutOfData);
        },
    };
    let string_table = match read_strings(&mut cur, n_table) {
        Ok(v) => v,
        Err(e) => {
            return Err(e);
        },
    };
    let raw_ext = match cur.read_u32() {
        Ok(v) => v,
        Err(_) => {
            return Err(ResourceError::OutOfData);
        },
    };
    let n_ext = if bin_version == 3 {
        raw_ext / 2
    } else {
        raw_ext
    };
    let external_resources = match read_ext_resources(&mut cur, n_ext, flags.intersects(FLAG_UIDS)) {
        Ok(v) => v,
        Err(e) => {
            return Err(e);
        },
    };
    if bin_version == 3 {
        match cur.skip(4) {
            Ok(()) => (),
            Err(_) => {
                return Err(ResourceError::OutOfData);
            },
        }
    }
    let n_index = match cur.read_u32() {
        Ok(v) => v,
        Err(_) => {
            return Err(ResourceError::OutOfData);
        },
    };
    let index = match read_int_index(&mut cur, n_index, bin_version == 5) {
        Ok(v) => v,
        Err(e) => {
            return Err(e);
        },
    };
    let internal_resources = match read_entries(&mut cur, &index, bin_version, wide) {
        Ok(v) => v,
        Err(e) => {
            return Err(e);
        },
    };
    Ok(
        ResourceContainer {
            version: (ver_major, ver_minor),
            bin_version,
            resource_type,
            flags,
            uid,
            script_class,
            string_table,
            external_resources,
            internal_resources,
        },
    )
}

/// Surface a compression failure as a resource error.
fn compression_to_resource(e: CompressionError) -> (r: ResourceError)
    ensures
        r == spec_compression_to_resource(e),
{
    if e == CompressionError::OutOfData {
        ResourceError::OutOfData
    } else {
        ResourceError::DecompressionFailed
    }
}

impl ResourceContainer {
    /// Load a container image, exactly as [`sload`] says: validate one
    /// of the two recognized magics, pass a compressed stream through
    /// the block transform first, then parse the body grammar.
    #[verifier::rlimit(100)]
    pub fn load(data: &[u8]) -> (r: Result<ResourceContainer, ResourceError>)
        ensures
            match r {
                Ok(c) => sload(data@) == Ok::<ContainerVal, ResourceError>(c.deep_view()),
                Err(e) => sload(data@) == Err::<ContainerVal, ResourceError>(e),
            },
    {
        let mut cur = ByteCursor::new(data);
        let m0 = match cur.read_u8() {
            Ok(v) => v,
            Err(_) => {
                return Err(ResourceError::OutOfData);
            },
        };
        let m1 = match cur.read_u8() {
            Ok(v) => v,
            Err(_) => {
                return Err(ResourceError::OutOfData);
            },
        };
        let m2 = match cur.read_u8() {
            Ok(v) => v,
            Err(_) => {
                return Err(ResourceError::OutOfData);
            },
        };
        let m3 = match cur.read_u8() {
            Ok(v) => v,
            Err(_) => {
                return Err(ResourceError::OutOfData);
            },
        };
        if m0 == 0x52 && m1 == 0x53 && m2 == 0x52 && m3 == 0x43 {
            proof {
                assert(data@.subrange(0, 4) =~= uncompressed_magic());
            }
            parse_body(data, 4)
        } else if m0 == 0x52 && m1 == 0x53 && m2 == 0x43 && m3 == 0x43 {
            proof {
                assert(data@.subrange(0, 4) =~= compressed_magic());
                if data@.subrange(0, 4) == uncompressed_magic() {
                    assert(data@.subrange(0, 4)[2] == 0x52u8);
                    assert(false);
                }
            }
            let rd = match GodotCompressedReader::open_after_ident(data, 4) {
                Ok(rd) => rd,
                Err(e) => {
                    return Err(compression_to_resource(e));
                },
            };
            parse_body(rd.data.as_slice(), 0)
        } else {
            proof {
                if data@.subrange(0, 4) == uncompressed_magic() {
                    assert(data@.subrange(0, 4)[0] == 0x52u8);
                    assert(data@.subrange(0, 4)[1] == 0x53u8);
                    assert(data@.subrange(0, 4)[2] == 0x52u8);
                    assert(data@.subrange(0, 4)[3] == 0x43u8);
                }
                if data@.subrange(0, 4) == compressed_magic() {
                    assert(data@.subrange(0, 4)[0] == 0x52u8);
                    assert(data@.subrange(0, 4)[1] == 0x53u8);
                    assert(data@.subrange(0, 4)[2] == 0x43u8);
                    assert(data@.subrange(0, 4)[3] == 0x43u8);
                }
            }
            Err(ResourceError::MalformedHeader)
        }
    }
}

/// A well-formed external-resource table holds one record per counted
/// entry: under schema 3 the raw stored count is halved before
/// iterating, under schema 5 it is used directly.
pub proof fn lemma_ext_resource_count(
    bytes: Seq<u8>,
    pos: int,
    n: int,
    uids: bool,
    acc: Seq<(Seq<char>, Seq<char>, Option<u64>)>,
)
    ensures
        sext_resources(bytes, pos, n, uids, acc) matches Ok(pr) ==> pr.0.len() == acc.len() + (
        if n >= 0 {
            n
        } else {
            0
        }),
    decreases n,
{
    if n > 0 {
        match sgstr(bytes, pos) {
            Err(_) => {},
            Ok((ty, p2)) => match sgstr(bytes, p2) {
                Err(_) => {},
                Ok((path, p3)) => {
                    if uids {
                        if p3 + 8 <= bytes.len() {
                            lemma_ext_resource_count(
                                bytes,
                                p3 + 8,
                                n - 1,
                                uids,
                                acc.push((ty, path, Some(le_u64_at(bytes, p3) as u64))),
                            );
                        }
                    } else {
                        lemma_ext_resource_count(
                            bytes,
                            p3,
                            n - 1,
                            uids,
                            acc.push((ty, path, None)),
                        );
                    }
                },
            },
        }
    }
}

} // verus!
