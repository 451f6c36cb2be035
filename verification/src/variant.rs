//! The typed-value model of the resource side and its tag-dispatch
//! decoder.
//!
//! A variant stream is a 4-byte little-endian type tag followed by a
//! tag-specific payload; containers recurse.  The spec decoder
//! [`sdecode`] gives the exact meaning of every supported tag, including
//! the masked "shared" bit of container lengths and the alignment
//! padding of raw byte arrays; [`Variant::read`] is proved to return
//! exactly what it says.  Real-valued fields are carried as raw IEEE-754
//! bit patterns (zero-extended to 64 bits when the container reads
//! 32-bit reals), so the model stays purely integral.

use vstd::prelude::*;

verus! {

use vstd::utf8::{valid_utf8, decode_utf8};
use crate::bytes::{ByteCursor, le_u32_at, le_u64_at, as_i32, as_i64};

/// An object reference inside a variant stream.
#[derive(Debug)]
pub enum VariantObject {
    Empty,
    ExternalResource((String, String)),
    InternalResource(u32),
    ExternalResourceIndex(u32),
}

/// Mathematical model of an object reference.
#[verifier::ext_equal]
pub enum ObjectVal {
    Empty,
    ExternalResource(Seq<char>, Seq<char>),
    InternalResource(u32),
    ExternalResourceIndex(u32),
}

impl VariantObject {
    pub open spec fn deep_view(&self) -> ObjectVal {
        match self {
            VariantObject::Empty => ObjectVal::Empty,
            VariantObject::ExternalResource(p) => ObjectVal::ExternalResource(p.0@, p.1@),
            VariantObject::InternalResource(i) => ObjectVal::InternalResource(*i),
            VariantObject::ExternalResourceIndex(i) => ObjectVal::ExternalResourceIndex(*i),
        }
    }
}

/// One decoded variant value.  Fields that are floating-point on the
/// wire hold the raw bit patterns here: `u32` for always-32-bit fields,
/// `u64` for width-flagged reals.
#[derive(Debug)]
pub enum Variant {
    Nil,
    Bool(bool),
    Int(i32),
    Float(u32),
    String(String),
    Vector2((u64, u64)),
    Rect2((u64, u64, u64, u64)),
    Vector3((u64, u64, u64)),
    Plane(((u64, u64, u64), u64)),
    Quaternion((u64, u64, u64, u64)),
    Color((u32, u32, u32, u32)),
    NodePath((Vec<String>, Vec<String>, bool)),
    RId(u32),
    Object(VariantObject),
    Dictionary(Vec<(String, Variant)>),
    Array(Vec<Variant>),
    PackedByteArray(Vec<u8>),
    PackedInt32Array(Vec<i32>),
    PackedFloat32Array(Vec<u32>),
    PackedStringArray(Vec<String>),
    PackedColorArray(Vec<(u32, u32, u32, u32)>),
    Int64(i64),
    Double(u64),
    Callable,
    Signal,
    StringName(String),
    Vector2I((i32, i32)),
    Rect2I((i32, i32, i32, i32)),
    Vector3I((i32, i32, i32)),
    PackedInt64Array(Vec<i64>),
    PackedFloat64Array(Vec<u64>),
    Vector4((u64, u64, u64, u64)),
    Vector4I((i32, i32, i32, i32)),
}

/// Mathematical model of a [`Variant`].
#[verifier::ext_equal]
pub enum VariantVal {
    Nil,
    Bool(bool),
    Int(i32),
    Float(u32),
    Str(Seq<char>),
    Vector2(u64, u64),
    Rect2(u64, u64, u64, u64),
    Vector3(u64, u64, u64),
    Plane(u64, u64, u64, u64),
    Quaternion(u64, u64, u64, u64),
    Color(u32, u32, u32, u32),
    NodePath(Seq<Seq<char>>, Seq<Seq<char>>, bool),
    RId(u32),
    Object(ObjectVal),
    Dictionary(Seq<(Seq<char>, VariantVal)>),
    Array(Seq<VariantVal>),
    PackedByteArray(Seq<u8>),
    PackedInt32Array(Seq<i32>),
    PackedFloat32Array(Seq<u32>),
    PackedStringArray(Seq<Seq<char>>),
    PackedColorArray(Seq<(u32, u32, u32, u32)>),
    Int64(i64),
    Double(u64),
    Callable,
    Signal,
    StringName(Seq<char>),
    Vector2I(i32, i32),
    Rect2I(i32, i32, i32, i32),
    Vector3I(i32, i32, i32),
    PackedInt64Array(Seq<i64>),
    PackedFloat64Array(Seq<u64>),
    Vector4(u64, u64, u64, u64),
    Vector4I(i32, i32, i32, i32),
}

/// Character sequences of a vector of strings.
pub open spec fn strs_view(s: Seq<String>) -> Seq<Seq<char>> {
    Seq::new(s.len(), |i: int| s[i]@)
}

/// Model of a vector of variants, element by element.
pub open spec fn vseq_view(s: Seq<Variant>) -> Seq<VariantVal>
    decreases s,
{
    if s.len() == 0 {
        Seq::empty()
    } else {
        vseq_view(s.subrange(0, s.len() - 1)).push(s[s.len() - 1].deep_view())
    }
}

/// Model of an association vector of variants, pair by pair.
pub open spec fn vdict_view(s: Seq<(String, Variant)>) -> Seq<(Seq<char>, VariantVal)>
    decreases s,
{
    if s.len() == 0 {
        Seq::empty()
    } else {
        vdict_view(s.subrange(0, s.len() - 1)).push(
            (s[s.len() - 1].0@, s[s.len() - 1].1.deep_view()),
        )
    }
}

/// `vdict_view` is the pair-by-pair image of its argument.
pub proof fn lemma_vdict_view(s: Seq<(String, Variant)>)
    ensures
        vdict_view(s).len() == s.len(),
        forall|i: int|
            0 <= i < s.len() ==> #[trigger] vdict_view(s)[i] == (s[i].0@, s[i].1.deep_view()),
    decreases s.len(),
{
    if s.len() > 0 {
        lemma_vdict_view(s.subrange(0, s.len() - 1));
        assert forall|i: int| 0 <= i < s.len() implies #[trigger] vdict_view(s)[i] == (s[i].0@,
        s[i].1.deep_view()) by {
            if i < s.len() - 1 {
                assert(s.subrange(0, s.len() - 1)[i] == s[i]);
            }
        }
    }
}

impl Variant {
    /// The mathematical value this node stands for.
    pub open spec fn deep_view(&self) -> VariantVal
        decreases self,
    {
        match self {
            Variant::Nil => VariantVal::Nil,
            Variant::Bool(b) => VariantVal::Bool(*b),
            Variant::Int(v) => VariantVal::Int(*v),
            Variant::Float(v) => VariantVal::Float(*v),
            Variant::String(s) => VariantVal::Str(s@),
            Variant::Vector2(v) => VariantVal::Vector2(v.0, v.1),
            Variant::Rect2(v) => VariantVal::Rect2(v.0, v.1, v.2, v.3),
            Variant::Vector3(v) => VariantVal::Vector3(v.0, v.1, v.2),
            Variant::Plane(v) => VariantVal::Plane(v.0.0, v.0.1, v.0.2, v.1),
            Variant::Quaternion(v) => VariantVal::Quaternion(v.0, v.1, v.2, v.3),
            Variant::Color(v) => VariantVal::Color(v.0, v.1, v.2, v.3),
            Variant::NodePath(v) => VariantVal::NodePath(strs_view(v.0@), strs_view(v.1@), v.2),
            Variant::RId(v) => VariantVal::RId(*v),
            Variant::Object(o) => VariantVal::Object(o.deep_view()),
            Variant::Dictionary(d) => VariantVal::Dictionary(vdict_view(d@)),
            Variant::Array(v) => VariantVal::Array(vseq_view(v@)),
            Variant::PackedByteArray(v) => VariantVal::PackedByteArray(v@),
            Variant::PackedInt32Array(v) => VariantVal::PackedInt32Array(v@),
            Variant::PackedFloat32Array(v) => VariantVal::PackedFloat32Array(v@),
            Variant::PackedStringArray(v) => VariantVal::PackedStringArray(strs_view(v@)),
            Variant::PackedColorArray(v) => VariantVal::PackedColorArray(v@),
            Variant::Int64(v) => VariantVal::Int64(*v),
            Variant::Double(v) => VariantVal::Double(*v),
            Variant::Callable => VariantVal::Callable,
            Variant::Signal => VariantVal::Signal,
            Variant::StringName(s) => VariantVal::StringName(s@),
            Variant::Vector2I(v) => VariantVal::Vector2I(v.0, v.1),
            Variant::Rect2I(v) => VariantVal::Rect2I(v.0, v.1, v.2, v.3),
            Variant::Vector3I(v) => VariantVal::Vector3I(v.0, v.1, v.2),
            Variant::PackedInt64Array(v) => VariantVal::PackedInt64Array(v@),
            Variant::PackedFloat64Array(v) => VariantVal::PackedFloat64Array(v@),
            Variant::Vector4(v) => VariantVal::Vector4(v.0, v.1, v.2, v.3),
            Variant::Vector4I(v) => VariantVal::Vector4I(v.0, v.1, v.2, v.3),
        }
    }
}

/// Everything that can go fatally wrong while decoding a variant stream
/// or loading a resource container.
#[derive(Debug, PartialEq, Eq, Structural, Clone, Copy)]
pub enum ResourceError {
    /// The container magic did not match either recognized value.
    MalformedHeader,
    /// A schema version outside the accepted set.
    UnsupportedVersion(i32),
    /// A big-endian container, which is rejected rather than byte-swapped.
    BigEndianNotSupported,
    /// A dictionary key that did not decode to a string.
    VariantDictionaryKeyNotString,
    /// A type tag outside the supported set.
    UnknownVariant(u32),
    /// The stream ended inside a field.
    OutOfData,
    /// A length-prefixed string that was not valid UTF-8.
    StringNotUtf8,
    /// A compressed container whose block transform failed.
    DecompressionFailed,
}

/// A length-prefixed UTF-8 string field of the resource format: a 4-byte
/// length, then that many bytes of UTF-8.
pub open spec fn sgstr(bytes: Seq<u8>, pos: int) -> Result<(Seq<char>, int), ResourceError> {
    if pos + 4 > bytes.len() {
        Err(ResourceError::OutOfData)
    } else {
        let n = le_u32_at(bytes, pos);
        if pos + 4 + n > bytes.len() {
            Err(ResourceError::OutOfData)
        } else if !valid_utf8(bytes.subrange(pos + 4, pos + 4 + n)) {
            Err(ResourceError::StringNotUtf8)
        } else {
            Ok((decode_utf8(bytes.subrange(pos + 4, pos + 4 + n)), pos + 4 + n))
        }
    }
}

/// A width-flagged real: eight bytes when `wide`, else four,
/// zero-extended to a 64-bit pattern.
pub open spec fn sreal(bytes: Seq<u8>, pos: int, wide: bool) -> int {
    if wide {
        le_u64_at(bytes, pos)
    } else {
        le_u32_at(bytes, pos)
    }
}

/// Bytes one real occupies.
pub open spec fn real_width(wide: bool) -> int {
    if wide {
        8
    } else {
        4
    }
}

/// The padding that follows a raw byte array of length `n`.
pub open spec fn pba_padding(n: int) -> int {
    if n % 4 == 0 {
        0
    } else {
        4 - n % 4
    }
}

/// An object reference: a 4-byte sub-discriminant selecting among the
/// four reference kinds.
pub open spec fn sobject(bytes: Seq<u8>, pos: int) -> Result<(ObjectVal, int), ResourceError> {
    if pos + 4 > bytes.len() {
        Err(ResourceError::OutOfData)
    } else {
        let k = le_u32_at(bytes, pos);
        let p = pos + 4;
        if k == 0 {
            Ok((ObjectVal::Empty, p))
        } else if k == 1 {
            match sgstr(bytes, p) {
                Err(e) => Err(e),
                Ok((ty, p2)) => match sgstr(bytes, p2) {
                    Err(e) => Err(e),
                    Ok((path, p3)) => Ok((ObjectVal::ExternalResource(ty, path), p3)),
                },
            }
        } else if k == 2 {
            if p + 4 > bytes.len() {
                Err(ResourceError::OutOfData)
            } else {
                Ok((ObjectVal::InternalResource(le_u32_at(bytes, p) as u32), p + 4))
            }
        } else if k == 3 {
            if p + 4 > bytes.len() {
                Err(ResourceError::OutOfData)
            } else {
                Ok((ObjectVal::ExternalResourceIndex(le_u32_at(bytes, p) as u32), p + 4))
            }
        } else {
            Err(ResourceError::UnknownVariant(k as u32))
        }
    }
}

/// `n` consecutive 4-byte values starting at `pos`.
pub open spec fn sarr_u32s(bytes: Seq<u8>, pos: int, n: int) -> Result<
    (Seq<u32>, int),
    ResourceError,
> {
    if pos + 4 * n > bytes.len() {
        Err(ResourceError::OutOfData)
    } else {
        Ok((Seq::new(n as nat, |i: int| le_u32_at(bytes, pos + 4 * i) as u32), pos + 4 * n))
    }
}

/// `n` consecutive signed 4-byte values starting at `pos`.
pub open spec fn sarr_i32s(bytes: Seq<u8>, pos: int, n: int) -> Result<
    (Seq<i32>, int),
    ResourceError,
> {
    if pos + 4 * n > bytes.len() {
        Err(ResourceError::OutOfData)
    } else {
        Ok(
            (
                Seq::new(n as nat, |i: int| as_i32(le_u32_at(bytes, pos + 4 * i)) as i32),
                pos + 4 * n,
            ),
        )
    }
}

/// `n` consecutive signed 8-byte values starting at `pos`.
pub open spec fn sarr_i64s(bytes: Seq<u8>, pos: int, n: int) -> Result<
    (Seq<i64>, int),
    ResourceError,
> {
    if pos + 8 * n > bytes.len() {
        Err(ResourceError::OutOfData)
    } else {
        Ok(
            (
                Seq::new(n as nat, |i: int| as_i64(le_u64_at(bytes, pos + 8 * i)) as i64),
                pos + 8 * n,
            ),
        )
    }
}

/// `n` consecutive four-component color records starting at `pos`.
pub open spec fn sarr_colors(bytes: Seq<u8>, pos: int, n: int) -> Result<
    (Seq<(u32, u32, u32, u32)>, int),
    ResourceError,
> {
    if pos + 16 * n > bytes.len() {
        Err(ResourceError::OutOfData)
    } else {
        Ok(
            (
                Seq::new(
                    n as nat,
                    |i: int|
                        (
                            le_u32_at(bytes, pos + 16 * i) as u32,
                            le_u32_at(bytes, pos + 16 * i + 4) as u32,
                            le_u32_at(bytes, pos + 16 * i + 8) as u32,
                            le_u32_at(bytes, pos + 16 * i + 12) as u32,
                        ),
                ),
                pos + 16 * n,
            ),
        )
    }
}

/// `n` consecutive length-prefixed strings starting at `pos`, appended
/// to `acc`.
pub open spec fn sarr_strings(bytes: Seq<u8>, pos: int, n: int, acc: Seq<Seq<char>>) -> Result<
    (Seq<Seq<char>>, int),
    ResourceError,
>
    decreases n,
{
    if n <= 0 {
        Ok((acc, pos))
    } else {
        match sgstr(bytes, pos) {
            Err(e) => Err(e),
            Ok((s, p2)) => sarr_strings(bytes, p2, n - 1, acc.push(s)),
        }
    }
}

/// The tag-dispatch decoder: the meaning of the variant at `pos`.  Reads
/// a 4-byte tag, then the tag's payload; containers recurse, and every
/// tag outside the supported set fails as `UnknownVariant`.  The guards
/// on recursive positions only bound the recursion; a decode never moves
/// backwards.
pub open spec fn sdecode(bytes: Seq<u8>, pos: int, wide: bool) -> Result<
    (VariantVal, int),
    ResourceError,
>
    decreases bytes.len() - pos, 0int,
{
    if pos + 4 > bytes.len() {
        Err(ResourceError::OutOfData)
    } else {
        let tag = le_u32_at(bytes, pos);
        let p = pos + 4;
        if tag == 1 {
            Ok((VariantVal::Nil, p))
        } else if tag == 2 {
            if p + 4 > bytes.len() {
                Err(ResourceError::OutOfData)
            } else {
                Ok((VariantVal::Bool(le_u32_at(bytes, p) > 0), p + 4))
            }
        } else if tag == 3 {
            if p + 4 > bytes.len() {
                Err(ResourceError::OutOfData)
            } else {
                Ok((VariantVal::Int(as_i32(le_u32_at(bytes, p)) as i32), p + 4))
            }
        } else if tag == 4 {
            if p + 4 > bytes.len() {
                Err(ResourceError::OutOfData)
            } else {
                Ok((VariantVal::Float(le_u32_at(bytes, p) as u32), p + 4))
            }
        } else if tag == 5 {
            match sgstr(bytes, p) {
                Err(e) => Err(e),
                Ok((cs, p2)) => Ok((VariantVal::Str(cs), p2)),
            }
        } else if tag == 10 {
            let w = real_width(wide);
            if p + 2 * w > bytes.len() {
                Err(ResourceError::OutOfData)
            } else {
                Ok(
                    (
                        VariantVal::Vector2(
                            sreal(bytes, p, wide) as u64,
                            sreal(bytes, p + w, wide) as u64,
                        ),
                        p + 2 * w,
                    ),
                )
            }
        } else if tag == 12 {
            let w = real_width(wide);
            if p + 3 * w > bytes.len() {
                Err(ResourceError::OutOfData)
            } else {
                Ok(
                    (
                        VariantVal::Vector3(
                            sreal(bytes, p, wide) as u64,
                            sreal(bytes, p + w, wide) as u64,
                            sreal(bytes, p + 2 * w, wide) as u64,
                        ),
                        p + 3 * w,
                    ),
                )
            }
        } else if tag == 13 {
            let w = real_width(wide);
            if p + 4 * w > bytes.len() {
                Err(ResourceError::OutOfData)
            } else {
                Ok(
                    (
                        VariantVal::Plane(
                            sreal(bytes, p, wide) as u64,
                            sreal(bytes, p + w, wide) as u64,
                            sreal(bytes, p + 2 * w, wide) as u64,
                            sreal(bytes, p + 3 * w, wide) as u64,
                        ),
                        p + 4 * w,
                    ),
                )
            }
        } else if tag == 20 {
            if p + 16 > bytes.len() {
                Err(ResourceError::OutOfData)
            } else {
                Ok(
                    (
                        VariantVal::Color(
                            le_u32_at(bytes, p) as u32,
                            le_u32_at(bytes, p + 4) as u32,
                            le_u32_at(bytes, p + 8) as u32,
                            le_u32_at(bytes, p + 12) as u32,
                        ),
                        p + 16,
                    ),
                )
            }
        } else if tag == 24 {
            match sobject(bytes, p) {
                Err(e) => Err(e),
                Ok((o, p2)) => Ok((VariantVal::Object(o), p2)),
            }
        } else if tag == 26 {
            if p + 4 > bytes.len() {
                Err(ResourceError::OutOfData)
            } else {
                let n = le_u32_at(bytes, p) % 0x8000_0000;
                if p + 4 > pos {
                    match sdecode_dict(bytes, p + 4, wide, n, Seq::empty()) {
                        Err(e) => Err(e),
                        Ok((d, p2)) => Ok((VariantVal::Dictionary(d), p2)),
                    }
                } else {
                    Err(ResourceError::OutOfData)
                }
            }
        } else if tag == 30 {
            if p + 4 > bytes.len() {
                Err(ResourceError::OutOfData)
            } else {
                let n = le_u32_at(bytes, p) % 0x8000_0000;
                if p + 4 > pos {
                    match sdecode_array(bytes, p + 4, wide, n, Seq::empty()) {
                        Err(e) => Err(e),
                        Ok((items, p2)) => Ok((VariantVal::Array(items), p2)),
                    }
                } else {
                    Err(ResourceError::OutOfData)
                }
            }
        } else if tag == 31 {
            if p + 4 > bytes.len() {
                Err(ResourceError::OutOfData)
            } else {
                let n = le_u32_at(bytes, p);
                if p + 4 + n + pba_padding(n) > bytes.len() {
                    Err(ResourceError::OutOfData)
                } else {
                    Ok(
                        (
                            VariantVal::PackedByteArray(bytes.subrange(p + 4, p + 4 + n)),
                            p + 4 + n + pba_padding(n),
                        ),
                    )
                }
            }
        } else if tag == 32 {
            if p + 4 > bytes.len() {
                Err(ResourceError::OutOfData)
            } else {
                match sarr_i32s(bytes, p + 4, le_u32_at(bytes, p)) {
                    Err(e) => Err(e),
                    Ok((items, p2)) => Ok((VariantVal::PackedInt32Array(items), p2)),
                }
            }
        } else if tag == 33 {
            if p + 4 > bytes.len() {
                Err(ResourceError::OutOfData)
            } else {
                match sarr_u32s(bytes, p + 4, le_u32_at(bytes, p)) {
                    Err(e) => Err(e),
                    Ok((items, p2)) => Ok((VariantVal::PackedFloat32Array(items), p2)),
                }
            }
        } else if tag == 34 {
            if p + 4 > bytes.len() {
                Err(ResourceError::OutOfData)
            } else {
                match sarr_strings(bytes, p + 4, le_u32_at(bytes, p), Seq::empty()) {
                    Err(e) => Err(e),
                    Ok((items, p2)) => Ok((VariantVal::PackedStringArray(items), p2)),
                }
            }
        } else if tag == 36 {
            if p + 4 > bytes.len() {
                Err(ResourceError::OutOfData)
            } else {
                match sarr_colors(bytes, p + 4, le_u32_at(bytes, p)) {
                    Err(e) => Err(e),
                    Ok((items, p2)) => Ok((VariantVal::PackedColorArray(items), p2)),
                }
            }
        } else if tag == 41 {
            if p + 8 > bytes.len() {
                Err(ResourceError::OutOfData)
            } else {
                Ok((VariantVal::Double(le_u64_at(bytes, p) as u64), p + 8))
            }
        } else if tag == 44 {
            match sgstr(bytes, p) {
                Err(e) => Err(e),
                Ok((cs, p2)) => Ok((VariantVal::StringName(cs), p2)),
            }
        } else if tag == 48 {
            if p + 4 > bytes.len() {
                Err(ResourceError::OutOfData)
            } else {
                match sarr_i64s(bytes, p + 4, le_u32_at(bytes, p)) {
                    Err(e) => Err(e),
                    Ok((items, p2)) => Ok((VariantVal::PackedInt64Array(items), p2)),
                }
            }
        } else {
            Err(ResourceError::UnknownVariant(tag as u32))
        }
    }
}

/// `n` consecutive variants starting at `pos`, appended to `acc`.
pub open spec fn sdecode_array(
    bytes: Seq<u8>,
    pos: int,
    wide: bool,
    n: int,
    acc: Seq<VariantVal>,
) -> Result<(Seq<VariantVal>, int), ResourceError>
    decreases bytes.len() - pos, n,
{
    if n <= 0 {
        Ok((acc, pos))
    } else if pos > bytes.len() {
        Err(ResourceError::OutOfData)
    } else {
        match sdecode(bytes, pos, wide) {
            Err(e) => Err(e),
            Ok((v, p2)) => {
                if pos < p2 <= bytes.len() {
                    sdecode_array(bytes, p2, wide, n - 1, acc.push(v))
                } else {
                    Err(ResourceError::OutOfData)
                }
            },
        }
    }
}

/// `n` consecutive key/value pairs starting at `pos`, bound into `acc`
/// with replace-on-equal-key semantics; every key must itself decode to
/// a string.
pub open spec fn sdecode_dict(
    bytes: Seq<u8>,
    pos: int,
    wide: bool,
    n: int,
    acc: Seq<(Seq<char>, VariantVal)>,
) -> Result<(Seq<(Seq<char>, VariantVal)>, int), ResourceError>
    decreases bytes.len() - pos, n,
{
    if n <= 0 {
        Ok((acc, pos))
    } else if pos > bytes.len() {
        Err(ResourceError::OutOfData)
    } else {
        match sdecode(bytes, pos, wide) {
            Err(e) => Err(e),
            Ok((k, p2)) => match k {
                VariantVal::Str(key) => {
                    if pos < p2 <= bytes.len() {
                        match sdecode(bytes, p2, wide) {
                            Err(e) => Err(e),
                            Ok((v, p3)) => {
                                if p2 < p3 <= bytes.len() {
                                    sdecode_dict(
                                        bytes,
                                        p3,
                                        wide,
                                        n - 1,
                                        crate::pickle::assoc_set(acc, key, v),
                                    )
                                } else {
                                    Err(ResourceError::OutOfData)
                                }
                            },
                        }
                    } else {
                        Err(ResourceError::OutOfData)
                    }
                },
                _ => Err(ResourceError::VariantDictionaryKeyNotString),
            },
        }
    }
}

/// Appending one variant appends its model.
pub proof fn lemma_vseq_view_push(s: Seq<Variant>, x: Variant)
    ensures
        vseq_view(s.push(x)) == vseq_view(s).push(x.deep_view()),
{
    assert(s.push(x).subrange(0, s.push(x).len() - 1) =~= s);
    assert(vseq_view(s.push(x)) == vseq_view(s).push(x.deep_view()));
}

/// Masking the high "shared" bit is taking the value modulo `2^31`.
pub proof fn lemma_shared_mask(x: u32)
    ensures
        x & 0x7FFF_FFFF == x % 0x8000_0000,
{
    assert(x & 0x7FFF_FFFF == x % 0x8000_0000) by (bit_vector);
}

/// Read a length-prefixed UTF-8 string, exactly as [`sgstr`] says.
pub fn read_gstring(cur: &mut ByteCursor) -> (r: Result<String, ResourceError>)
    requires
        old(cur).wf(),
    ensures
        final(cur).bytes() == old(cur).bytes(),
        final(cur).wf(),
        match r {
            Ok(s) => sgstr(old(cur).bytes(), old(cur).pos as int) matches Ok(pr) && pr.0 == s@
                && pr.1 == final(cur).pos && old(cur).pos + 4 <= final(cur).pos,
            Err(e) => sgstr(old(cur).bytes(), old(cur).pos as int) == Err::<
                (Seq<char>, int),
                ResourceError,
            >(e),
        },
{
    let n = match cur.read_u32() {
        Ok(v) => v,
        Err(_) => {
            return Err(ResourceError::OutOfData);
        },
    };
    match cur.read_string_len(n as usize) {
        Ok(s) => Ok(s),
        Err(crate::bytes::ReadError::InvalidUtf8) => Err(ResourceError::StringNotUtf8),
        Err(_) => Err(ResourceError::OutOfData),
    }
}

/// Read one width-flagged real as its raw bit pattern, zero-extended.
fn read_real(cur: &mut ByteCursor, wide: bool) -> (r: Result<u64, ResourceError>)
    requires
        old(cur).wf(),
    ensures
        final(cur).bytes() == old(cur).bytes(),
        final(cur).wf(),
        match r {
            Ok(v) => old(cur).pos + real_width(wide) <= old(cur).bytes().len() && v == sreal(
                old(cur).bytes(),
                old(cur).pos as int,
                wide,
            ) && final(cur).pos == old(cur).pos + real_width(wide),
            Err(e) => e == ResourceError::OutOfData && old(cur).pos + real_width(wide) > old(
                cur,
            ).bytes().len(),
        },
{
    if wide {
        match cur.read_u64() {
            Ok(v) => Ok(v),
            Err(_) => Err(ResourceError::OutOfData),
        }
    } else {
        match cur.read_u32() {
            Ok(v) => Ok(v as u64),
            Err(_) => Err(ResourceError::OutOfData),
        }
    }
}

/// Bind `key` to `value` in a variant dictionary: the first binding of
/// an equal key is replaced, otherwise the pair is appended.
fn vdict_set(dict: &mut Vec<(String, Variant)>, key: String, value: Variant)
    ensures
        vdict_view(final(dict)@) == crate::pickle::assoc_set(
            vdict_view(old(dict)@),
            key@,
            value.deep_view(),
        ),
{
    proof {
        lemma_vdict_view(dict@);
        crate::pickle::lemma_assoc_first(vdict_view(dict@), key@);
    }
    let ghost d0 = vdict_view(dict@);
    let mut i: usize = 0;
    while i < dict.len()
        invariant
            i <= dict@.len(),
            dict@ == old(dict)@,
            d0 == vdict_view(dict@),
            vdict_view(dict@).len() == dict@.len(),
            forall|j: int| 0 <= j < dict@.len() ==> #[trigger] vdict_view(dict@)[j] == (
            dict@[j].0@, dict@[j].1.deep_view()),
            forall|j: int| 0 <= j < i ==> (#[trigger] dict@[j].0)@ != key@,
        decreases dict@.len() - i,
    {
        if crate::pickle::string_eq(&dict[i].0, &key) {
            proof {
                crate::pickle::lemma_assoc_first_found(d0, key@, i as int);
            }
            let ghost pre = dict@;
            let ghost k0 = key@;
            let ghost v0 = value.deep_view();
            dict.set(i, (key, value));
            proof {
                lemma_vdict_view(dict@);
                assert(dict@[i as int].0@ == k0);
                assert(dict@[i as int].1.deep_view() == v0);
                assert forall|j: int| 0 <= j < dict@.len() implies #[trigger] vdict_view(
                    dict@,
                )[j] == crate::pickle::assoc_set(d0, k0, v0)[j] by {
                    if j != i {
                        assert(dict@[j] == pre[j]);
                        assert(vdict_view(pre)[j] == (pre[j].0@, pre[j].1.deep_view()));
                    }
                }
                assert(vdict_view(dict@) =~= crate::pickle::assoc_set(d0, k0, v0));
            }
            return ;
        }
        i = i + 1;
    }
    proof {
        crate::pickle::lemma_assoc_first(d0, key@);
        if crate::pickle::assoc_first(d0, key@) >= 0 {
            assert(d0[crate::pickle::assoc_first(d0, key@)].0 == key@);
            assert(false);
        }
    }
    dict.push((key, value));
    proof {
        lemma_vdict_view(dict@);
        assert(vdict_view(dict@) =~= crate::pickle::assoc_set(d0, dict@[dict@.len() - 1].0@, dict@[
        dict@.len() - 1].1.deep_view()));
    }
}

impl VariantObject {
    /// Decode an object reference, exactly as [`sobject`] says.
    pub fn read(cur: &mut ByteCursor) -> (r: Result<VariantObject, ResourceError>)
        requires
            old(cur).wf(),
        ensures
            final(cur).bytes() == old(cur).bytes(),
            final(cur).wf(),
            match r {
                Ok(o) => sobject(old(cur).bytes(), old(cur).pos as int) matches Ok(pr) && pr.0
                    == o.deep_view() && pr.1 == final(cur).pos && old(cur).pos < final(cur).pos,
                Err(e) => sobject(old(cur).bytes(), old(cur).pos as int) == Err::<
                    (ObjectVal, int),
                    ResourceError,
                >(e),
            },
    {
        let k = match cur.read_u32() {
            Ok(v) => v,
            Err(_) => {
                return Err(ResourceError::OutOfData);
            },
        };
        match k {
            0 => Ok(VariantObject::Empty),
            1 => {
                let ty = match read_gstring(cur) {
                    Ok(s) => s,
                    Err(e) => {
                        return Err(e);
                    },
                };
                let path = match read_gstring(cur) {
                    Ok(s) => s,
                    Err(e) => {
                        return Err(e);
                    },
                };
                Ok(VariantObject::ExternalResource((ty, path)))
            },
            2 => {
                let v = match cur.read_u32() {
                    Ok(v) => v,
                    Err(_) => {
                        return Err(ResourceError::OutOfData);
                    },
                };
                Ok(VariantObject::InternalResource(v))
            },
            3 => {
                let v = match cur.read_u32() {
                    Ok(v) => v,
                    Err(_) => {
                        return Err(ResourceError::OutOfData);
                    },
                };
                Ok(VariantObject::ExternalResourceIndex(v))
            },
            _ => Err(ResourceError::UnknownVariant(k)),
        }
    }
}

/// Read `n` consecutive 4-byte values.
fn read_u32s(cur: &mut ByteCursor, n: u32) -> (r: Result<Vec<u32>, ResourceError>)
    requires
        old(cur).wf(),
    ensures
        final(cur).bytes() == old(cur).bytes(),
        final(cur).wf(),
        match r {
            Ok(v) => sarr_u32s(old(cur).bytes(), old(cur).pos as int, n as int) matches Ok(pr)
                && pr.0 == v@ && pr.1 == final(cur).pos,
            Err(e) => sarr_u32s(old(cur).bytes(), old(cur).pos as int, n as int) == Err::<
                (Seq<u32>, int),
                ResourceError,
            >(e),
        },
{
    let ghost bytes = old(cur).bytes();
    let ghost p0 = old(cur).pos as int;
    let mut out: Vec<u32> = Vec::new();
    let mut i: u32 = 0;
    while i < n
        invariant
            cur.wf(),
            cur.bytes() == bytes,
            bytes == old(cur).bytes(),
            p0 == old(cur).pos,
            i <= n,
            cur.pos == p0 + 4 * i,
            out@.len() == i,
            forall|j: int| 0 <= j < i ==> #[trigger] out@[j] == le_u32_at(bytes, p0 + 4 * j) as u32,
        decreases n - i,
    {
        let v = match cur.read_u32() {
            Ok(v) => v,
            Err(_) => {
                proof {
                    assert(p0 + 4 * i + 4 > bytes.len());
                    assert(4 * n >= 4 * i + 4) by (nonlinear_arith)
                        requires
                            i < n,
                    ;
                }
                return Err(ResourceError::OutOfData);
            },
        };
        out.push(v);
        i = i + 1;
    }
    proof {
        assert(p0 + 4 * n <= bytes.len());
        let target = Seq::new(n as nat, |j: int| le_u32_at(bytes, p0 + 4 * j) as u32);
        assert(out@ =~= target);
    }
    Ok(out)
}

/// Read `n` consecutive signed 4-byte values.
fn read_i32s(cur: &mut ByteCursor, n: u32) -> (r: Result<Vec<i32>, ResourceError>)
    requires
        old(cur).wf(),
    ensures
        final(cur).bytes() == old(cur).bytes(),
        final(cur).wf(),
        match r {
            Ok(v) => sarr_i32s(old(cur).bytes(), old(cur).pos as int, n as int) matches Ok(pr)
                && pr.0 == v@ && pr.1 == final(cur).pos,
            Err(e) => sarr_i32s(old(cur).bytes(), old(cur).pos as int, n as int) == Err::<
                (Seq<i32>, int),
                ResourceError,
            >(e),
        },
{
    let ghost bytes = old(cur).bytes();
    let ghost p0 = old(cur).pos as int;
    let mut out: Vec<i32> = Vec::new();
    let mut i: u32 = 0;
    while i < n
        invariant
            cur.wf(),
            cur.bytes() == bytes,
            bytes == old(cur).bytes(),
            p0 == old(cur).pos,
            i <= n,
            cur.pos == p0 + 4 * i,
            out@.len() == i,
            forall|j: int|
                0 <= j < i ==> #[trigger] out@[j] == as_i32(le_u32_at(bytes, p0 + 4 * j)) as i32,
        decreases n - i,
    {
        let v = match cur.read_i32() {
            Ok(v) => v,
            Err(_) => {
                proof {
                    assert(p0 + 4 * i + 4 > bytes.len());
                    assert(4 * n >= 4 * i + 4) by (nonlinear_arith)
                        requires
                            i < n,
                    ;
                }
                return Err(ResourceError::OutOfData);
            },
        };
        out.push(v);
        i = i + 1;
    }
    proof {
        assert(p0 + 4 * n <= bytes.len());
        let target = Seq::new(n as nat, |j: int| as_i32(le_u32_at(bytes, p0 + 4 * j)) as i32);
        assert(out@ =~= target);
    }
    Ok(out)
}

/// Read `n` consecutive signed 8-byte values.
fn read_i64s(cur: &mut ByteCursor, n: u32) -> (r: Result<Vec<i64>, ResourceError>)
    requires
        old(cur).wf(),
    ensures
        final(cur).bytes() == old(cur).bytes(),
        final(cur).wf(),
        match r {
            Ok(v) => sarr_i64s(old(cur).bytes(), old(cur).pos as int, n as int) matches Ok(pr)
                && pr.0 == v@ && pr.1 == final(cur).pos,
            Err(e) => sarr_i64s(old(cur).bytes(), old(cur).pos as int, n as int) == Err::<
                (Seq<i64>, int),
                ResourceError,
            >(e),
        },
{
    let ghost bytes = old(cur).bytes();
    let ghost p0 = old(cur).pos as int;
    let mut out: Vec<i64> = Vec::new();
    let mut i: u32 = 0;
    while i < n
        invariant
            cur.wf(),
            cur.bytes() == bytes,
            bytes == old(cur).bytes(),
            p0 == old(cur).pos,
            i <= n,
            cur.pos == p0 + 8 * i,
            out@.len() == i,
            forall|j: int|
                0 <= j < i ==> #[trigger] out@[j] == as_i64(le_u64_at(bytes, p0 + 8 * j)) as i64,
        decreases n - i,
    {
        let v = match cur.read_i64() {
            Ok(v) => v,
            Err(_) => {
                proof {
                    assert(p0 + 8 * i + 8 > bytes.len());
                    assert(8 * n >= 8 * i + 8) by (nonlinear_arith)
                        requires
                            i < n,
                    ;
                }
                return Err(ResourceError::OutOfData);
            },
        };
        out.push(v);
        i = i + 1;
    }
    proof {
        assert(p0 + 8 * n <= bytes.len());
        let target = Seq::new(n as nat, |j: int| as_i64(le_u64_at(bytes, p0 + 8 * j)) as i64);
        assert(out@ =~= target);
    }
    Ok(out)
}

/// Read `n` consecutive four-component color records.
fn read_colors(cur: &mut ByteCursor, n: u32) -> (r: Result<
    Vec<(u32, u32, u32, u32)>,
    ResourceError,
>)
    requires
        old(cur).wf(),
    ensures
        final(cur).bytes() == old(cur).bytes(),
        final(cur).wf(),
        match r {
            Ok(v) => sarr_colors(old(cur).bytes(), old(cur).pos as int, n as int) matches Ok(pr)
                && pr.0 == v@ && pr.1 == final(cur).pos,
            Err(e) => sarr_colors(old(cur).bytes(), old(cur).pos as int, n as int) == Err::<
                (Seq<(u32, u32, u32, u32)>, int),
                ResourceError,
            >(e),
        },
{
    let ghost bytes = old(cur).bytes();
    let ghost p0 = old(cur).pos as int;
    let mut out: Vec<(u32, u32, u32, u32)> = Vec::new();
    let mut i: u32 = 0;
    while i < n
        invariant
            cur.wf(),
            cur.bytes() == bytes,
            bytes == old(cur).bytes(),
            p0 == old(cur).pos,
            i <= n,
            cur.pos == p0 + 16 * i,
            out@.len() == i,
            forall|j: int|
                0 <= j < i ==> #[trigger] out@[j] == (
                    le_u32_at(bytes, p0 + 16 * j) as u32,
                    le_u32_at(bytes, p0 + 16 * j + 4) as u32,
                    le_u32_at(bytes, p0 + 16 * j + 8) as u32,
                    le_u32_at(bytes, p0 + 16 * j + 12) as u32,
                ),
        decreases n - i,
    {
        proof {
            assert(16 * n >= 16 * i + 16) by (nonlinear_arith)
                requires
                    i < n,
            ;
        }
        let a = match cur.read_u32() {
            Ok(v) => v,
            Err(_) => {
                return Err(ResourceError::OutOfData);
            },
        };
        let b = match cur.read_u32() {
            Ok(v) => v,
            Err(_) => {
                return Err(ResourceError::OutOfData);
            },
        };
        let c = match cur.read_u32() {
            Ok(v) => v,
            Err(_) => {
                return Err(ResourceError::OutOfData);
            },
        };
        let d = match cur.read_u32() {
            Ok(v) => v,
            Err(_) => {
                return Err(ResourceError::OutOfData);
            },
        };
        out.push((a, b, c, d));
        i = i + 1;
    }
    proof {
        assert(p0 + 16 * n <= bytes.len());
        let target = Seq::new(
            n as nat,
            |j: int|
                (
                    le_u32_at(bytes, p0 + 16 * j) as u32,
                    le_u32_at(bytes, p0 + 16 * j + 4) as u32,
                    le_u32_at(bytes, p0 + 16 * j + 8) as u32,
                    le_u32_at(bytes, p0 + 16 * j + 12) as u32,
                ),
        );
        assert(out@ =~= target);
    }
    Ok(out)
}

/// Read `n` consecutive length-prefixed strings.
pub(crate) fn read_strings(cur: &mut ByteCursor, n: u32) -> (r: Result<Vec<String>, ResourceError>)
    requires
        old(cur).wf(),
    ensures
        final(cur).bytes() == old(cur).bytes(),
        final(cur).wf(),
        match r {
            Ok(v) => sarr_strings(old(cur).bytes(), old(cur).pos as int, n as int, Seq::empty())
                matches Ok(pr) && pr.0 == strs_view(v@) && pr.1 == final(cur).pos && old(
                cur,
            ).pos <= final(cur).pos,
            Err(e) => sarr_strings(old(cur).bytes(), old(cur).pos as int, n as int, Seq::empty())
                == Err::<(Seq<Seq<char>>, int), ResourceError>(e),
        },
{
    let ghost bytes = old(cur).bytes();
    let ghost p0 = old(cur).pos as int;
    let mut out: Vec<String> = Vec::new();
    proof {
        assert(strs_view(out@) =~= Seq::<Seq<char>>::empty());
    }
    let mut i: u32 = 0;
    while i < n
        invariant
            cur.wf(),
            cur.bytes() == bytes,
            bytes == old(cur).bytes(),
            p0 == old(cur).pos,
            p0 <= cur.pos,
            i <= n,
            out@.len() == i,
            sarr_strings(bytes, p0, n as int, Seq::empty()) == sarr_strings(
                bytes,
                cur.pos as int,
                n - i,
                strs_view(out@),
            ),
        decreases n - i,
    {
        let s = match read_gstring(cur) {
            Ok(s) => s,
            Err(e) => {
                return Err(e);
            },
        };
        let ghost pre_out = out@;
        out.push(s);
        proof {
            assert(strs_view(out@) =~= strs_view(pre_out).push(out@[out@.len() - 1]@));
        }
        i = i + 1;
    }
    Ok(out)
}

impl Variant {
    /// Decode one variant, exactly as [`sdecode`] says: tag dispatch
    /// over the closed set of supported tags, recursing into containers,
    /// with any unknown tag rejected rather than defaulted.
    #[verifier::rlimit(100)]
    pub fn read(cur: &mut ByteCursor, bin_version: i32, use_real64: bool) -> (r: Result<
        Variant,
        ResourceError,
    >)
        requires
            old(cur).wf(),
        ensures
            final(cur).bytes() == old(cur).bytes(),
            final(cur).wf(),
            match r {
                Ok(v) => sdecode(old(cur).bytes(), old(cur).pos as int, use_real64) matches Ok(pr)
                    && pr.0 == v.deep_view() && pr.1 == final(cur).pos && old(cur).pos < final(cur).pos,
                Err(e) => sdecode(old(cur).bytes(), old(cur).pos as int, use_real64) == Err::<
                    (VariantVal, int),
                    ResourceError,
                >(e),
            },
        decreases cur.bytes().len() - cur.pos,
    {
        let ghost bytes = old(cur).bytes();
        let ghost pos0 = old(cur).pos as int;
        let tag = match cur.read_u32() {
            Ok(v) => v,
            Err(_) => {
                return Err(ResourceError::OutOfData);
            },
        };
        match tag {
            1 => Ok(Variant::Nil),
            2 => {
                let v = match cur.read_u32() {
                    Ok(v) => v,
                    Err(_) => {
                        return Err(ResourceError::OutOfData);
                    },
                };
                Ok(Variant::Bool(v > 0))
            },
            3 => {
                let v = match cur.read_i32() {
                    Ok(v) => v,
                    Err(_) => {
                        return Err(ResourceError::OutOfData);
                    },
                };
                Ok(Variant::Int(v))
            },
            4 => {
                let v = match cur.read_u32() {
                    Ok(v) => v,
                    Err(_) => {
                        return Err(ResourceError::OutOfData);
                    },
                };
                Ok(Variant::Float(v))
            },
            5 => {
                let s = match read_gstring(cur) {
                    Ok(s) => s,
                    Err(e) => {
                        return Err(e);
                    },
                };
                Ok(Variant::String(s))
            },
            10 => {
                let a = match read_real(cur, use_real64) {
                    Ok(v) => v,
                    Err(e) => {
                        return Err(e);
                    },
                };
                let b = match read_real(cur, use_real64) {
                    Ok(v) => v,
                    Err(e) => {
                        return Err(e);
                    },
                };
                Ok(Variant::Vector2((a, b)))
            },
            12 => {
                let a = match read_real(cur, use_real64) {
                    Ok(v) => v,
                    Err(e) => {
                        return Err(e);
                    },
                };
                let b = match read_real(cur, use_real64) {
                    Ok(v) => v,
                    Err(e) => {
                        return Err(e);
                    },
                };
                let c = match read_real(cur, use_real64) {
                    Ok(v) => v,
                    Err(e) => {
                        return Err(e);
                    },
                };
                Ok(Variant::Vector3((a, b, c)))
            },
            13 => {
                let a = match read_real(cur, use_real64) {
                    Ok(v) => v,
                    Err(e) => {
                        return Err(e);
                    },
                };
                let b = match read_real(cur, use_real64) {
                    Ok(v) => v,
                    Err(e) => {
                        return Err(e);
                    },
                };
                let c = match read_real(cur, use_real64) {
                    Ok(v) => v,
                    Err(e) => {
                        return Err(e);
                    },
                };
                let d = match read_real(cur, use_real64) {
                    Ok(v) => v,
                    Err(e) => {
                        return Err(e);
                    },
                };
                Ok(Variant::Plane(((a, b, c), d)))
            },
            20 => {
                let a = match cur.read_u32() {
                    Ok(v) => v,
                    Err(_) => {
                        return Err(ResourceError::OutOfData);
                    },
                };
                let b = match cur.read_u32() {
                    Ok(v) => v,
                    Err(_) => {
                        return Err(ResourceError::OutOfData);
                    },
                };
                let c = match cur.read_u32() {
                    Ok(v) => v,
                    Err(_) => {
                        return Err(ResourceError::OutOfData);
                    },
                };
                let d = match cur.read_u32() {
                    Ok(v) => v,
                    Err(_) => {
                        return Err(ResourceError::OutOfData);
                    },
                };
                Ok(Variant::Color((a, b, c, d)))
            },
            24 => {
                let o = match VariantObject::read(cur) {
                    Ok(o) => o,
                    Err(e) => {
                        return Err(e);
                    },
                };
                Ok(Variant::Object(o))
            },
            26 => {
                let n_raw = match cur.read_u32() {
                    Ok(v) => v,
                    Err(_) => {
                        return Err(ResourceError::OutOfData);
                    },
                };
                let n = n_raw & 0x7FFF_FFFF;
                proof {
                    lemma_shared_mask(n_raw);
                }
                let ghost dstart = cur.pos as int;
                let mut dict: Vec<(String, Variant)> = Vec::new();
                proof {
                    assert(vdict_view(dict@) =~= Seq::<(Seq<char>, VariantVal)>::empty());
                }
                let mut i: u32 = 0;
                while i < n
                    invariant
                        cur.wf(),
                        cur.bytes() == bytes,
                        bytes == old(cur).bytes(),
                        pos0 == old(cur).pos,
                        i <= n,
                        pos0 + 8 == dstart,
                        dstart <= bytes.len(),
                        dstart <= cur.pos,
                        le_u32_at(bytes, pos0) == 26,
                        n == le_u32_at(bytes, pos0 + 4) % 0x8000_0000,
                        sdecode_dict(bytes, dstart, use_real64, n as int, Seq::empty())
                            == sdecode_dict(
                            bytes,
                            cur.pos as int,
                            use_real64,
                            n - i,
                            vdict_view(dict@),
                        ),
                    decreases n - i,
                {
                    let k = match Variant::read(cur, bin_version, use_real64) {
                        Ok(v) => v,
                        Err(e) => {
                            return Err(e);
                        },
                    };
                    let key = match k {
                        Variant::String(s) => s,
                        _ => {
                            return Err(ResourceError::VariantDictionaryKeyNotString);
                        },
                    };
                    let v = match Variant::read(cur, bin_version, use_real64) {
                        Ok(v) => v,
                        Err(e) => {
                            return Err(e);
                        },
                    };
                    vdict_set(&mut dict, key, v);
                    i = i + 1;
                }
                proof {
                    assert(sdecode_dict(
                        bytes,
                        cur.pos as int,
                        use_real64,
                        0,
                        vdict_view(dict@),
                    ) == Ok::<(Seq<(Seq<char>, VariantVal)>, int), ResourceError>(
                        (vdict_view(dict@), cur.pos as int),
                    ));
                }
                Ok(Variant::Dictionary(dict))
            },
            30 => {
                let n_raw = match cur.read_u32() {
                    Ok(v) => v,
                    Err(_) => {
                        return Err(ResourceError::OutOfData);
                    },
                };
                let n = n_raw & 0x7FFF_FFFF;
                proof {
                    lemma_shared_mask(n_raw);
                }
                let ghost dstart = cur.pos as int;
                let mut items: Vec<Variant> = Vec::new();
                proof {
                    assert(vseq_view(items@) =~= Seq::<VariantVal>::empty());
                }
                let mut i: u32 = 0;
                while i < n
                    invariant
                        cur.wf(),
                        cur.bytes() == bytes,
                        bytes == old(cur).bytes(),
                        pos0 == old(cur).pos,
                        i <= n,
                        pos0 + 8 == dstart,
                        dstart <= bytes.len(),
                        dstart <= cur.pos,
                        le_u32_at(bytes, pos0) == 30,
                        n == le_u32_at(bytes, pos0 + 4) % 0x8000_0000,
                        sdecode_array(bytes, dstart, use_real64, n as int, Seq::empty())
                            == sdecode_array(
                            bytes,
                            cur.pos as int,
                            use_real64,
                            n - i,
                            vseq_view(items@),
                        ),
                    decreases n - i,
                {
                    let v = match Variant::read(cur, bin_version, use_real64) {
                        Ok(v) => v,
                        Err(e) => {
                            return Err(e);
                        },
                    };
                    let ghost pre = items@;
                    let ghost vv = v.deep_view();
                    items.push(v);
                    proof {
                        lemma_vseq_view_push(pre, items@[items@.len() - 1]);
                        assert(items@ =~= pre.push(items@[items@.len() - 1]));
                        assert(vseq_view(items@) == vseq_view(pre).push(vv));
                    }
                    i = i + 1;
                }
                proof {
                    assert(sdecode_array(bytes, cur.pos as int, use_real64, 0, vseq_view(items@))
                        == Ok::<(Seq<VariantVal>, int), ResourceError>(
                        (vseq_view(items@), cur.pos as int),
                    ));
                }
                Ok(Variant::Array(items))
            },
            31 => {
                let n = match cur.read_u32() {
                    Ok(v) => v,
                    Err(_) => {
                        return Err(ResourceError::OutOfData);
                    },
                };
                let v = match cur.read_vec(n as usize) {
                    Ok(v) => v,
                    Err(_) => {
                        return Err(ResourceError::OutOfData);
                    },
                };
                let extra = 4 - (n % 4);
                if extra < 4 {
                    match cur.skip(extra as usize) {
                        Ok(()) => (),
                        Err(_) => {
                            return Err(ResourceError::OutOfData);
                        },
                    }
                }
                Ok(Variant::PackedByteArray(v))
            },
            32 => {
                let n = match cur.read_u32() {
                    Ok(v) => v,
                    Err(_) => {
                        return Err(ResourceError::OutOfData);
                    },
                };
                let items = match read_i32s(cur, n) {
                    Ok(v) => v,
                    Err(e) => {
                        return Err(e);
                    },
                };
                Ok(Variant::PackedInt32Array(items))
            },
            33 => {
                let n = match cur.read_u32() {
                    Ok(v) => v,
                    Err(_) => {
                        return Err(ResourceError::OutOfData);
                    },
                };
                let items = match read_u32s(cur, n) {
                    Ok(v) => v,
                    Err(e) => {
                        return Err(e);
                    },
                };
                Ok(Variant::PackedFloat32Array(items))
            },
            34 => {
                let n = match cur.read_u32() {
                    Ok(v) => v,
                    Err(_) => {
                        return Err(ResourceError::OutOfData);
                    },
                };
                let items = match read_strings(cur, n) {
                    Ok(v) => v,
                    Err(e) => {
                        return Err(e);
                    },
                };
                Ok(Variant::PackedStringArray(items))
            },
            36 => {
                let n = match cur.read_u32() {
                    Ok(v) => v,
                    Err(_) => {
                        return Err(ResourceError::OutOfData);
                    },
                };
                let items = match read_colors(cur, n) {
                    Ok(v) => v,
                    Err(e) => {
                        return Err(e);
                    },
                };
                Ok(Variant::PackedColorArray(items))
            },
            41 => {
                let v = match cur.read_u64() {
                    Ok(v) => v,
                    Err(_) => {
                        return Err(ResourceError::OutOfData);
                    },
                };
                Ok(Variant::Double(v))
            },
            44 => {
                let s = match read_gstring(cur) {
                    Ok(s) => s,
                    Err(e) => {
                        return Err(e);
                    },
                };
                Ok(Variant::StringName(s))
            },
            48 => {
                let n = match cur.read_u32() {
                    Ok(v) => v,
                    Err(_) => {
                        return Err(ResourceError::OutOfData);
                    },
                };
                let items = match read_i64s(cur, n) {
                    Ok(v) => v,
                    Err(e) => {
                        return Err(e);
                    },
                };
                Ok(Variant::PackedInt64Array(items))
            },
            _ => Err(ResourceError::UnknownVariant(tag)),
        }
    }
}

/// Raw byte array round trip: a length field `L`, `L` payload bytes and
/// the `(4 - L mod 4) mod 4` padding bytes that follow are consumed in
/// full — when they end the input, the decode ends exactly there, with
/// the payload as the value.
pub proof fn lemma_packed_byte_array_round_trip(bytes: Seq<u8>, pos: int, wide: bool)
    requires
        0 <= pos,
        pos + 8 <= bytes.len(),
        le_u32_at(bytes, pos) == 31,
        pos + 8 + le_u32_at(bytes, pos + 4) + pba_padding(le_u32_at(bytes, pos + 4))
            == bytes.len(),
    ensures
        sdecode(bytes, pos, wide) == Ok::<(VariantVal, int), ResourceError>(
            (
                VariantVal::PackedByteArray(
                    bytes.subrange(pos + 8, pos + 8 + le_u32_at(bytes, pos + 4)),
                ),
                bytes.len() as int,
            ),
        ),
{
}

/// The high "shared" bit of a container length field is ignored: a
/// length with the bit set decodes to the same count as with it clear.
pub proof fn lemma_shared_bit_ignored(x: u32)
    ensures
        (x | 0x8000_0000) % 0x8000_0000 == x % 0x8000_0000,
        x & 0x7FFF_FFFF == x % 0x8000_0000,
{
    assert((x | 0x8000_0000) % 0x8000_0000 == x % 0x8000_0000) by (bit_vector);
    assert(x & 0x7FFF_FFFF == x % 0x8000_0000) by (bit_vector);
}

} // verus!
