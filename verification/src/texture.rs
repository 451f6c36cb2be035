//! Texture container parsing: the compressed 2D texture format and the
//! dispatching loader over recognized texture magics.

use vstd::prelude::*;

verus! {

use crate::bytes::{ByteCursor, le_u32_at, le_u16_at, as_i32};
use crate::pickle::clone_bytes;

/// Everything that can go fatally wrong with a texture.
#[derive(Debug, Clone, Copy, PartialEq, Eq, Structural)]
pub enum TextureError {
    /// A magic outside the recognized set.
    UnknownFormat,
    /// A header or image block that could not be read.
    CannotRead,
    /// A stored format this library cannot convert to an image.
    CannotConvert,
}

/// The stored image encoding of a compressed texture.
#[derive(Debug, PartialEq, Eq, Structural, Clone, Copy)]
pub enum DataFormat {
    Image,
    Png,
    Webp,
    BasisUniversal,
}

/// The encoding a format word names, if any.
pub open spec fn spec_data_format(v: u32) -> Option<DataFormat> {
    if v == 0 {
        Some(DataFormat::Image)
    } else if v == 1 {
        Some(DataFormat::Png)
    } else if v == 2 {
        Some(DataFormat::Webp)
    } else if v == 3 {
        Some(DataFormat::BasisUniversal)
    } else {
        None
    }
}

impl DataFormat {
    /// Decode a format word; a word outside the set cannot be read.
    pub fn from(v: u32) -> (r: Result<DataFormat, TextureError>)
        ensures
            match spec_data_format(v) {
                Some(df) => r == Ok::<DataFormat, TextureError>(df),
                None => r == Err::<DataFormat, TextureError>(TextureError::CannotRead),
            },
    {
        match v {
            0 => Ok(DataFormat::Image),
            1 => Ok(DataFormat::Png),
            2 => Ok(DataFormat::Webp),
            3 => Ok(DataFormat::BasisUniversal),
            _ => Err(TextureError::CannotRead),
        }
    }
}

/// Byte sequences of a vector of image blocks.
pub open spec fn mips_view(s: Seq<Vec<u8>>) -> Seq<Seq<u8>> {
    Seq::new(s.len(), |i: int| s[i]@)
}

/// `n` length-prefixed image blocks from `pos`, appended to `acc`.
pub open spec fn smips(bytes: Seq<u8>, pos: int, n: int, acc: Seq<Seq<u8>>) -> Result<
    (Seq<Seq<u8>>, int),
    TextureError,
>
    decreases n,
{
    if n <= 0 {
        Ok((acc, pos))
    } else if pos + 4 > bytes.len() {
        Err(TextureError::CannotRead)
    } else {
        let len = le_u32_at(bytes, pos);
        if pos + 4 + len > bytes.len() {
            Err(TextureError::CannotRead)
        } else {
            smips(bytes, pos + 4 + len, n - 1, acc.push(bytes.subrange(pos + 4, pos + 4 + len)))
        }
    }
}

/// Read `n` length-prefixed image blocks, exactly as [`smips`] says.
pub(crate) fn read_mips(cur: &mut ByteCursor, n: u64) -> (r: Result<Vec<Vec<u8>>, TextureError>)
    requires
        old(cur).wf(),
    ensures
        final(cur).bytes() == old(cur).bytes(),
        final(cur).wf(),
        match r {
            Ok(v) => smips(old(cur).bytes(), old(cur).pos as int, n as int, Seq::empty())
                matches Ok(pr) && pr.0 == mips_view(v@) && pr.1 == final(cur).pos && v@.len()
                == n,
            Err(e) => smips(old(cur).bytes(), old(cur).pos as int, n as int, Seq::empty())
                == Err::<(Seq<Seq<u8>>, int), TextureError>(e),
        },
{
    let ghost bytes = old(cur).bytes();
    let ghost p0 = old(cur).pos as int;
    let mut out: Vec<Vec<u8>> = Vec::new();
    proof {
        assert(mips_view(out@) =~= Seq::<Seq<u8>>::empty());
    }
    let mut i: u64 = 0;
    while i < n
        invariant
            cur.wf(),
            cur.bytes() == bytes,
            bytes == old(cur).bytes(),
            p0 == old(cur).pos,
            i <= n,
            out@.len() == i,
            smips(bytes, p0, n as int, Seq::empty()) == smips(
                bytes,
                cur.pos as int,
                n - i,
                mips_view(out@),
            ),
        decreases n - i,
    {
        let len = match cur.read_u32() {
            Ok(v) => v,
            Err(_) => {
                return Err(TextureError::CannotRead);
            },
        };
        let blob = match cur.read_vec(len as usize) {
            Ok(v) => v,
            Err(_) => {
                return Err(TextureError::CannotRead);
            },
        };
        let ghost pre = out@;
        out.push(blob);
        proof {
            assert(mips_view(out@) =~= mips_view(pre).push(out@[out@.len() - 1]@));
        }
        i = i + 1;
    }
    Ok(out)
}

/// A compressed 2D texture.
#[derive(Debug)]
pub struct V4Compressed2d {
    pub original_width: u32,
    pub original_height: u32,
    pub flags: u32,
    pub original_num_mips: i32,
    pub data_format: DataFormat,
    pub width: u16,
    pub height: u16,
    pub num_mips: u32,
    pub format: u32,
    pub mips: Vec<Vec<u8>>,
}

/// Mathematical model of a compressed 2D texture.
#[verifier::ext_equal]
pub struct V4Val {
    pub original_width: u32,
    pub original_height: u32,
    pub flags: u32,
    pub original_num_mips: i32,
    pub data_format: DataFormat,
    pub width: u16,
    pub height: u16,
    pub num_mips: u32,
    pub format: u32,
    pub mips: Seq<Seq<u8>>,
}

impl V4Compressed2d {
    pub open spec fn deep_view(&self) -> V4Val {
        V4Val {
            original_width: self.original_width,
            original_height: self.original_height,
            flags: self.flags,
            original_num_mips: self.original_num_mips,
            data_format: self.data_format,
            width: self.width,
            height: self.height,
            num_mips: self.num_mips,
            format: self.format,
            mips: mips_view(self.mips@),
        }
    }

    /// The loader always leaves at least one image block.
    pub open spec fn wf(&self) -> bool {
        self.mips@.len() > 0
    }
}

/// The compressed 2D texture magic, `GST2`.
pub open spec fn v4_magic() -> Seq<u8> {
    seq![0x47u8, 0x53u8, 0x54u8, 0x32u8]
}

/// What loading a compressed 2D texture yields: the header, then
/// `num_mips + 1` length-prefixed image blocks for the stored encodings
/// that carry them; other stored encodings cannot be read.
pub open spec fn sv4(bytes: Seq<u8>) -> Result<V4Val, TextureError> {
    if bytes.len() < 4 || bytes.subrange(0, 4) != v4_magic() {
        Err(TextureError::CannotRead)
    } else if bytes.len() < 52 {
        Err(TextureError::CannotRead)
    } else if le_u32_at(bytes, 4) != 1 {
        Err(TextureError::CannotRead)
    } else {
        match spec_data_format(le_u32_at(bytes, 36) as u32) {
            Option::None => Err(TextureError::CannotRead),
            Option::Some(df) => {
                if df == DataFormat::Png || df == DataFormat::Webp {
                    match smips(bytes, 52, le_u32_at(bytes, 44) + 1, Seq::empty()) {
                        Err(e) => Err(e),
                        Ok((mips, _)) => Ok(
                            V4Val {
                                original_width: le_u32_at(bytes, 8) as u32,
                                original_height: le_u32_at(bytes, 12) as u32,
                                flags: le_u32_at(bytes, 16) as u32,
                                original_num_mips: as_i32(le_u32_at(bytes, 20)) as i32,
                                data_format: df,
                                width: le_u16_at(bytes, 40) as u16,
                                height: le_u16_at(bytes, 42) as u16,
                                num_mips: le_u32_at(bytes, 44) as u32,
                                format: le_u32_at(bytes, 48) as u32,
                                mips,
                            },
                        ),
                    }
                } else {
                    Err(TextureError::CannotRead)
                }
            },
        }
    }
}

impl V4Compressed2d {
    /// Load a compressed 2D texture, exactly as [`sv4`] says.
    #[verifier::rlimit(100)]
    pub fn load(data: &[u8]) -> (r: Result<V4Compressed2d, TextureError>)
        ensures
            match r {
                Ok(t) => sv4(data@) == Ok::<V4Val, TextureError>(t.deep_view()) && t.wf(),
                Err(e) => sv4(data@) == Err::<V4Val, TextureError>(e),
            },
    {
        let mut cur = ByteCursor::new(data);
        let m0 = match cur.read_u8() {
            Ok(v) => v,
            Err(_) => {
                return Err(TextureError::CannotRead);
            },
        };
        let m1 = match cur.read_u8() {
            Ok(v) => v,
            Err(_) => {
                return Err(TextureError::CannotRead);
            },
        };
        let m2 = match cur.read_u8() {
            Ok(v) => v,
            Err(_) => {
                return Err(TextureError::CannotRead);
            },
        };
        let m3 = match cur.read_u8() {
            Ok(v) => v,
            Err(_) => {
                return Err(TextureError::CannotRead);
            },
        };
        if !(m0 == 0x47 && m1 == 0x53 && m2 == 0x54 && m3 == 0x32) {
            proof {
                if data@.subrange(0, 4) == v4_magic() {
                    assert(data@.subrange(0, 4)[0] == 0x47u8);
                    assert(data@.subrange(0, 4)[1] == 0x53u8);
                    assert(data@.subrange(0, 4)[2] == 0x54u8);
                    assert(data@.subrange(0, 4)[3] == 0x32u8);
                }
            }
            return Err(TextureError::CannotRead);
        }
        proof {
            assert(data@.subrange(0, 4) =~= v4_magic());
        }
        let version = match cur.read_u32() {
            Ok(v) => v,
            Err(_) => {
                return Err(TextureError::CannotRead);
            },
        };
        let original_width = match cur.read_u32() {
            Ok(v) => v,
            Err(_) => {
                return Err(TextureError::CannotRead);
            },
        };
        let original_height = match cur.read_u32() {
            Ok(v) => v,
            Err(_) => {
                return Err(TextureError::CannotRead);
            },
        };
        let flags = match cur.read_u32() {
            Ok(v) => v,
            Err(_) => {
                return Err(TextureError::CannotRead);
            },
        };
        let original_num_mips = match cur.read_i32() {
            Ok(v) => v,
            Err(_) => {
                return Err(TextureError::CannotRead);
            },
        };
        match cur.skip(12) {
            Ok(()) => (),
            Err(_) => {
                return Err(TextureError::CannotRead);
            },
        }
        let df_raw = match cur.read_u32() {
            Ok(v) => v,
            Err(_) => {
                return Err(TextureError::CannotRead);
            },
        };
        let width = match cur.read_u16() {
            Ok(v) => v,
            Err(_) => {
                return Err(TextureError::CannotRead);
            },
        };
        let height = match cur.read_u16() {
            Ok(v) => v,
            Err(_) => {
                return Err(TextureError::CannotRead);
            },
        };
        let num_mips = match cur.read_u32() {
            Ok(v) => v,
            Err(_) => {
                return Err(TextureError::CannotRead);
            },
        };
        let format = match cur.read_u32() {
            Ok(v) => v,
            Err(_) => {
                return Err(TextureError::CannotRead);
            },
        };
        if version != 1 {
            return Err(TextureError::CannotRead);
        }
        let data_format = match DataFormat::from(df_raw) {
            Ok(df) => df,
            Err(e) => {
                return Err(e);
            },
        };
        match data_format {
            DataFormat::Png | DataFormat::Webp => (),
            _ => {
                return Err(TextureError::CannotRead);
            },
        }
        let mips = match read_mips(&mut cur, num_mips as u64 + 1) {
            Ok(v) => v,
            Err(e) => {
                return Err(e);
            },
        };
        Ok(
            V4Compressed2d {
                original_width,
                original_height,
                flags,
                original_num_mips,
                data_format,
                width,
                height,
                num_mips,
                format,
                mips,
            },
        )
    }

    /// The first image block with its file extension, for the stored
    /// encodings that are already images.
    pub fn to_image(&self) -> (r: Result<(&str, Vec<u8>), TextureError>)
        requires
            self.wf(),
        ensures
            match r {
                Ok(p) => (self.data_format == DataFormat::Png && p.0@ == "png"@
                    || self.data_format == DataFormat::Webp && p.0@ == "webp"@) && p.1@
                    == self.deep_view().mips[0],
                Err(e) => e == TextureError::CannotConvert && self.data_format != DataFormat::Png
                    && self.data_format != DataFormat::Webp,
            },
    {
        match self.data_format {
            DataFormat::Image => Err(TextureError::CannotConvert),
            DataFormat::Png => Ok(("png", clone_bytes(&self.mips[0]))),
            DataFormat::Webp => Ok(("webp", clone_bytes(&self.mips[0]))),
            DataFormat::BasisUniversal => Err(TextureError::CannotConvert),
        }
    }
}

/// A texture of any recognized container format.
#[derive(Debug)]
pub enum Texture {
    V2Texture,
    V2ImageTexture,
    V2AtlasTexture,
    V2LargeTexture,
    V2Cubemap,
    V3Stream2d,
    V3Stream3d,
    V3StreamArray,
    V4Compressed2d(V4Compressed2d),
    V4Compressed3d,
    V4CompressedLayered,
}

impl Texture {
    pub open spec fn wf(&self) -> bool {
        match self {
            Texture::V4Compressed2d(t) => t.wf(),
            _ => true,
        }
    }

    /// Dispatch on the magic: only the compressed 2D format is
    /// recognized here.
    pub fn load(data: &[u8]) -> (r: Result<Texture, TextureError>)
        ensures
            match r {
                Ok(t) => data@.len() >= 4 && data@.subrange(0, 4) == v4_magic() && (
                t matches Texture::V4Compressed2d(v4) && sv4(data@) == Ok::<V4Val, TextureError>(
                    v4.deep_view(),
                )) && t.wf(),
                Err(e) => if data@.len() >= 4 && data@.subrange(0, 4) == v4_magic() {
                    sv4(data@) == Err::<V4Val, TextureError>(e)
                } else {
                    e == TextureError::UnknownFormat
                },
            },
    {
        if data.len() < 4 {
            return Err(TextureError::UnknownFormat);
        }
        let m0 = data[0];
        let m1 = data[1];
        let m2 = data[2];
        let m3 = data[3];
        if m0 == 0x47 && m1 == 0x53 && m2 == 0x54 && m3 == 0x32 {
            proof {
                assert(data@.subrange(0, 4) =~= v4_magic());
            }
            match V4Compressed2d::load(data) {
                Ok(t) => Ok(Texture::V4Compressed2d(t)),
                Err(e) => Err(e),
            }
        } else {
            proof {
                if data@.subrange(0, 4) == v4_magic() {
                    assert(data@.subrange(0, 4)[0] == 0x47u8);
                    assert(data@.subrange(0, 4)[1] == 0x53u8);
                    assert(data@.subrange(0, 4)[2] == 0x54u8);
                    assert(data@.subrange(0, 4)[3] == 0x32u8);
                }
            }
            Err(TextureError::UnknownFormat)
        }
    }

    /// The first image block of a recognized texture.
    pub fn to_image(&self) -> (r: Result<(&str, Vec<u8>), TextureError>)
        requires
            self.wf(),
        ensures
            match self {
                Texture::V4Compressed2d(t) => match r {
                    Ok(p) => (t.data_format == DataFormat::Png && p.0@ == "png"@
                        || t.data_format == DataFormat::Webp && p.0@ == "webp"@) && p.1@
                        == t.deep_view().mips[0],
                    Err(e) => e == TextureError::CannotConvert && t.data_format
                        != DataFormat::Png && t.data_format != DataFormat::Webp,
                },
                _ => r == Err::<(&str, Vec<u8>), TextureError>(TextureError::UnknownFormat),
            },
    {
        match self {
            Texture::V4Compressed2d(texture) => texture.to_image(),
            _ => Err(TextureError::UnknownFormat),
        }
    }
}

} // verus!
