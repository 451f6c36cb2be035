//! The stream-texture container of the older format generation: a
//! magic, dimension and flag fields, and image blocks whose encoding is
//! named by bits of the data-format word.

use vstd::prelude::*;

verus! {

use crate::bytes::{ByteCursor, le_u32_at, le_u16_at};
use crate::pickle::clone_bytes;
use crate::texture::TextureError;

/// Bits of the data-format word.
pub const DF_MASK_IMAGE_FORMAT: u32 = 0xFFFFF;

pub const DF_PNG: u32 = 0x100000;

pub const DF_WEBP: u32 = 0x200000;

pub const DF_BIT_STREAM: u32 = 0x400000;

pub const DF_HAS_MIPMAPS: u32 = 0x800000;

pub const DF_DETECT_3D: u32 = 0x1000000;

pub const DF_DETECT_SRGB: u32 = 0x2000000;

pub const DF_DETECT_NORMAL: u32 = 0x4000000;

pub const DF_DETECT_ROUGHNESS: u32 = 0x8000000;

/// A stream texture.
#[derive(Debug)]
pub struct V3Stream2d {
    pub width: u16,
    pub original_width: u16,
    pub height: u16,
    pub original_height: u16,
    pub flags: u32,
    pub data_format: u32,
    pub num_mips: u32,
    pub mips: Vec<Vec<u8>>,
}

/// Mathematical model of a stream texture.
#[verifier::ext_equal]
pub struct V3Val {
    pub width: u16,
    pub original_width: u16,
    pub height: u16,
    pub original_height: u16,
    pub flags: u32,
    pub data_format: u32,
    pub num_mips: u32,
    pub mips: Seq<Seq<u8>>,
}

impl V3Stream2d {
    pub open spec fn deep_view(&self) -> V3Val {
        V3Val {
            width: self.width,
            original_width: self.original_width,
            height: self.height,
            original_height: self.original_height,
            flags: self.flags,
            data_format: self.data_format,
            num_mips: self.num_mips,
            mips: crate::texture::mips_view(self.mips@),
        }
    }
}

/// The stream texture magic, `GDST`.
pub open spec fn v3_magic() -> Seq<u8> {
    seq![0x47u8, 0x44u8, 0x53u8, 0x54u8]
}

/// `n` length-prefixed sub-texture blocks from `pos`, each carrying a
/// `WEBP` identifier before its payload; any block of another encoding
/// cannot be read.
pub open spec fn swebp_mips(
    bytes: Seq<u8>,
    pos: int,
    n: int,
    webp: bool,
    acc: Seq<Seq<u8>>,
) -> Result<(Seq<Seq<u8>>, int), TextureError>
    decreases n,
{
    if n <= 0 {
        Ok((acc, pos))
    } else if !webp {
        Err(TextureError::CannotRead)
    } else if pos + 4 > bytes.len() {
        Err(TextureError::CannotRead)
    } else {
        let len = le_u32_at(bytes, pos);
        if len < 4 {
            Err(TextureError::CannotRead)
        } else if pos + 8 > bytes.len() {
            Err(TextureError::CannotRead)
        } else if bytes.subrange(pos + 4, pos + 8) != seq![0x57u8, 0x45u8, 0x42u8, 0x50u8] {
            Err(TextureError::CannotRead)
        } else if pos + 4 + len > bytes.len() {
            Err(TextureError::CannotRead)
        } else {
            swebp_mips(
                bytes,
                pos + 4 + len,
                n - 1,
                webp,
                acc.push(bytes.subrange(pos + 8, pos + 4 + len)),
            )
        }
    }
}

/// What loading a stream texture yields.
pub open spec fn sv3(bytes: Seq<u8>) -> Result<V3Val, TextureError> {
    if bytes.len() < 4 || bytes.subrange(0, 4) != v3_magic() {
        Err(TextureError::CannotRead)
    } else if bytes.len() < 20 {
        Err(TextureError::CannotRead)
    } else {
        let df = le_u32_at(bytes, 16) as u32;
        if df & (DF_WEBP | DF_PNG) != 0 {
            if bytes.len() < 24 {
                Err(TextureError::CannotRead)
            } else {
                let n = le_u32_at(bytes, 20);
                match swebp_mips(bytes, 24, n, df & DF_WEBP != 0, Seq::empty()) {
                    Err(e) => Err(e),
                    Ok((mips, _)) => Ok(
                        V3Val {
                            width: le_u16_at(bytes, 4) as u16,
                            original_width: le_u16_at(bytes, 6) as u16,
                            height: le_u16_at(bytes, 8) as u16,
                            original_height: le_u16_at(bytes, 10) as u16,
                            flags: le_u32_at(bytes, 12) as u32,
                            data_format: df,
                            num_mips: n as u32,
                            mips,
                        },
                    ),
                }
            }
        } else {
            Err(TextureError::CannotRead)
        }
    }
}

impl V3Stream2d {
    /// Load a stream texture, exactly as [`sv3`] says.
    #[verifier::rlimit(100)]
    pub fn load(data: &[u8]) -> (r: Result<V3Stream2d, TextureError>)
        ensures
            match r {
                Ok(t) => sv3(data@) == Ok::<V3Val, TextureError>(t.deep_view()),
                Err(e) => sv3(data@) == Err::<V3Val, TextureError>(e),
            },
    {
        let mut cur = ByteCursor::new(data);
        let m0 = match cur.read_u8() {
            Ok(v) => v,
            Err(_) => {
                return Err(TextureError::CannotRead);
            },
        };
        let m1 = match cur.read_u8() {
            Ok(v) => v,
            Err(_) => {
                return Err(TextureError::CannotRead);
            },
        };
        let m2 = match cur.read_u8() {
            Ok(v) => v,
            Err(_) => {
                return Err(TextureError::CannotRead);
            },
        };
        let m3 = match cur.read_u8() {
            Ok(v) => v,
            Err(_) => {
                return Err(TextureError::CannotRead);
            },
        };
        if !(m0 == 0x47 && m1 == 0x44 && m2 == 0x53 && m3 == 0x54) {
            proof {
                if data@.subrange(0, 4) == v3_magic() {
                    assert(data@.subrange(0, 4)[0] == 0x47u8);
                    assert(data@.subrange(0, 4)[1] == 0x44u8);
                    assert(data@.subrange(0, 4)[2] == 0x53u8);
                    assert(data@.subrange(0, 4)[3] == 0x54u8);
                }
            }
            return Err(TextureError::CannotRead);
        }
        proof {
            assert(data@.subrange(0, 4) =~= v3_magic());
        }
        let width = match cur.read_u16() {
            Ok(v) => v,
            Err(_) => {
                return Err(TextureError::CannotRead);
            },
        };
        let original_width = match cur.read_u16() {
            Ok(v) => v,
            Err(_) => {
                return Err(TextureError::CannotRead);
            },
        };
        let height = match cur.read_u16() {
            Ok(v) => v,
            Err(_) => {
                return Err(TextureError::CannotRead);
            },
        };
        let original_height = match cur.read_u16() {
            Ok(v) => v,
            Err(_) => {
                return Err(TextureError::CannotRead);
            },
        };
        let flags = match cur.read_u32() {
            Ok(v) => v,
            Err(_) => {
                return Err(TextureError::CannotRead);
            },
        };
        let data_format = match cur.read_u32() {
            Ok(v) => v,
            Err(_) => {
                return Err(TextureError::CannotRead);
            },
        };
        if data_format & (DF_WEBP | DF_PNG) == 0 {
            return Err(TextureError::CannotRead);
        }
        let num_mips = match cur.read_u32() {
            Ok(v) => v,
            Err(_) => {
                return Err(TextureError::CannotRead);
            },
        };
        let webp = data_format & DF_WEBP != 0;
        let ghost bytes = data@;
        let mut mips: Vec<Vec<u8>> = Vec::new();
        proof {
            assert(crate::texture::mips_view(mips@) =~= Seq::<Seq<u8>>::empty());
        }
        let mut i: u32 = 0;
        while i < num_mips
            invariant
                cur.wf(),
                cur.bytes() == bytes,
                bytes == data@,
                data@.len() >= 24,
                data@.subrange(0, 4) == v3_magic(),
                data_format == le_u32_at(bytes, 16),
                data_format & (DF_WEBP | DF_PNG) != 0,
                num_mips == le_u32_at(bytes, 20),
                webp == (data_format & DF_WEBP != 0),
                i <= num_mips,
                mips@.len() == i,
                swebp_mips(bytes, 24, num_mips as int, webp, Seq::empty()) == swebp_mips(
                    bytes,
                    cur.pos as int,
                    num_mips - i,
                    webp,
                    crate::texture::mips_view(mips@),
                ),
            decreases num_mips - i,
        {
            if !webp {
                return Err(TextureError::CannotRead);
            }
            let len = match cur.read_u32() {
                Ok(v) => v,
                Err(_) => {
                    return Err(TextureError::CannotRead);
                },
            };
            if len < 4 {
                return Err(TextureError::CannotRead);
            }
            let w0 = match cur.read_u8() {
                Ok(v) => v,
                Err(_) => {
                    return Err(TextureError::CannotRead);
                },
            };
            let w1 = match cur.read_u8() {
                Ok(v) => v,
                Err(_) => {
                    return Err(TextureError::CannotRead);
                },
            };
            let w2 = match cur.read_u8() {
                Ok(v) => v,
                Err(_) => {
                    return Err(TextureError::CannotRead);
                },
            };
            let w3 = match cur.read_u8() {
                Ok(v) => v,
                Err(_) => {
                    return Err(TextureError::CannotRead);
                },
            };
            let ghost spos = cur.pos - 8;
            if !(w0 == 0x57 && w1 == 0x45 && w2 == 0x42 && w3 == 0x50) {
                proof {
                    if bytes.subrange(spos + 4, spos + 8) == seq![
                        0x57u8,
                        0x45u8,
                        0x42u8,
                        0x50u8,
                    ] {
                        assert(bytes.subrange(spos + 4, spos + 8)[0] == 0x57u8);
                        assert(bytes.subrange(spos + 4, spos + 8)[1] == 0x45u8);
                        assert(bytes.subrange(spos + 4, spos + 8)[2] == 0x42u8);
                        assert(bytes.subrange(spos + 4, spos + 8)[3] == 0x50u8);
                    }
                }
                return Err(TextureError::CannotRead);
            }
            proof {
                assert(bytes.subrange(spos + 4, spos + 8) =~= seq![
                    0x57u8,
                    0x45u8,
                    0x42u8,
                    0x50u8,
                ]);
            }
            let blob = match cur.read_vec((len - 4) as usize) {
                Ok(v) => v,
                Err(_) => {
                    return Err(TextureError::CannotRead);
                },
            };
            let ghost pre = mips@;
            mips.push(blob);
            proof {
                assert(crate::texture::mips_view(mips@) =~= crate::texture::mips_view(pre).push(
                    mips@[mips@.len() - 1]@,
                ));
            }
            i = i + 1;
        }
        Ok(
            V3Stream2d {
                width,
                original_width,
                height,
                original_height,
                flags,
                data_format,
                num_mips,
                mips,
            },
        )
    }

    /// The first image block with its file extension.
    pub fn to_image(&self) -> (r: Result<(&str, Vec<u8>), TextureError>)
        requires
            self.mips@.len() > 0 || self.data_format & (DF_PNG | DF_WEBP) == 0,
        ensures
            match r {
                Ok(p) => (self.data_format & DF_PNG != 0 && p.0@ == "png"@ || self.data_format
                    & DF_PNG == 0 && self.data_format & DF_WEBP != 0 && p.0@ == "webp"@) && p.1@
                    == self.deep_view().mips[0],
                Err(e) => e == TextureError::CannotConvert && self.data_format & (DF_PNG
                    | DF_WEBP) == 0,
            },
    {
        let ghost d = self.data_format;
        proof {
            assert(d & 0x100000u32 != 0 ==> d & (0x100000u32 | 0x200000u32) != 0) by (bit_vector);
            assert(d & 0x200000u32 != 0 ==> d & (0x100000u32 | 0x200000u32) != 0) by (bit_vector);
            assert(d & 0x100000u32 == 0 && d & 0x200000u32 == 0 ==> d & (0x100000u32
                | 0x200000u32) == 0) by (bit_vector);
        }
        if self.data_format & DF_PNG != 0 {
            Ok(("png", clone_bytes(&self.mips[0])))
        } else if self.data_format & DF_WEBP != 0 {
            Ok(("webp", clone_bytes(&self.mips[0])))
        } else {
            Err(TextureError::CannotConvert)
        }
    }
}

} // verus!
