//! The compressed-texture container in its standalone form: the same
//! header layout as the compressed 2D texture, decoded into its own
//! type with the flag word kept verbatim.

use vstd::prelude::*;

verus! {

use crate::bytes::{ByteCursor, le_u32_at, le_u16_at, as_i32};
use crate::texture::{TextureError, read_mips, smips, mips_view};

/// Flag bits of a compressed texture.
pub const CTEX_BIT_STREAM: u32 = 0x400000;

pub const CTEX_HAS_MIPMAPS: u32 = 0x800000;

pub const CTEX_DETECT_3D: u32 = 0x1000000;

pub const CTEX_DETECT_NORMAL: u32 = 0x4000000;

pub const CTEX_DETECT_ROUGHNESS: u32 = 0x8000000;

/// The stored image encoding of a compressed texture.
#[derive(Debug, PartialEq, Eq, Structural, Clone, Copy)]
pub enum GodotCtexDataFormats {
    Image,
    Png,
    Webp,
    BasisUniversal,
}

/// The encoding a format word names, if any.
pub open spec fn spec_ctex_format(v: u32) -> Option<GodotCtexDataFormats> {
    if v == 0 {
        Some(GodotCtexDataFormats::Image)
    } else if v == 1 {
        Some(GodotCtexDataFormats::Png)
    } else if v == 2 {
        Some(GodotCtexDataFormats::Webp)
    } else if v == 3 {
        Some(GodotCtexDataFormats::BasisUniversal)
    } else {
        None
    }
}

impl GodotCtexDataFormats {
    /// Decode a format word; a word outside the set cannot be read.
    pub fn from(v: u32) -> (r: Result<GodotCtexDataFormats, TextureError>)
        ensures
            match spec_ctex_format(v) {
                Some(df) => r == Ok::<GodotCtexDataFormats, TextureError>(df),
                None => r == Err::<GodotCtexDataFormats, TextureError>(TextureError::CannotRead),
            },
    {
        match v {
            0 => Ok(GodotCtexDataFormats::Image),
            1 => Ok(GodotCtexDataFormats::Png),
            2 => Ok(GodotCtexDataFormats::Webp),
            3 => Ok(GodotCtexDataFormats::BasisUniversal),
            _ => Err(TextureError::CannotRead),
        }
    }
}

/// A loaded compressed texture.
#[derive(Debug)]
pub struct GodotCtex {
    pub original_width: u32,
    pub original_height: u32,
    pub flags: u32,
    pub original_num_mips: i32,
    pub data_format: GodotCtexDataFormats,
    pub width: u16,
    pub height: u16,
    pub num_mips: u32,
    pub format: u32,
    pub mips: Vec<Vec<u8>>,
}

/// Mathematical model of a loaded compressed texture.
#[verifier::ext_equal]
pub struct CtexVal {
    pub original_width: u32,
    pub original_height: u32,
    pub flags: u32,
    pub original_num_mips: i32,
    pub data_format: GodotCtexDataFormats,
    pub width: u16,
    pub height: u16,
    pub num_mips: u32,
    pub format: u32,
    pub mips: Seq<Seq<u8>>,
}

impl GodotCtex {
    pub open spec fn deep_view(&self) -> CtexVal {
        CtexVal {
            original_width: self.original_width,
            original_height: self.original_height,
            flags: self.flags,
            original_num_mips: self.original_num_mips,
            data_format: self.data_format,
            width: self.width,
            height: self.height,
            num_mips: self.num_mips,
            format: self.format,
            mips: mips_view(self.mips@),
        }
    }
}

/// What loading a compressed texture yields: the magic word
/// `0x32545347`, a version of one, the header fields, and `num_mips + 1`
/// image blocks for the stored encodings that carry them.
pub open spec fn sctex(bytes: Seq<u8>) -> Result<CtexVal, TextureError> {
    if bytes.len() < 52 {
        Err(TextureError::UnknownFormat)
    } else if le_u32_at(bytes, 0) != 0x32545347 {
        Err(TextureError::UnknownFormat)
    } else if le_u32_at(bytes, 4) != 1 {
        Err(TextureError::UnknownFormat)
    } else {
        match spec_ctex_format(le_u32_at(bytes, 36) as u32) {
            Option::None => Err(TextureError::CannotRead),
            Option::Some(df) => {
                if df == GodotCtexDataFormats::Png || df == GodotCtexDataFormats::Webp {
                    match smips(bytes, 52, le_u32_at(bytes, 44) + 1, Seq::empty()) {
                        Err(e) => Err(e),
                        Ok((mips, _)) => Ok(
                            CtexVal {
                                original_width: le_u32_at(bytes, 8) as u32,
                                original_height: le_u32_at(bytes, 12) as u32,
                                flags: le_u32_at(bytes, 16) as u32,
                                original_num_mips: as_i32(le_u32_at(bytes, 20)) as i32,
                                data_format: df,
                                width: le_u16_at(bytes, 40) as u16,
                                height: le_u16_at(bytes, 42) as u16,
                                num_mips: le_u32_at(bytes, 44) as u32,
                                format: le_u32_at(bytes, 48) as u32,
                                mips,
                            },
                        ),
                    }
                } else {
                    Err(TextureError::CannotRead)
                }
            },
        }
    }
}

impl GodotCtex {
    /// Load a compressed texture, exactly as [`sctex`] says.
    #[verifier::rlimit(100)]
    pub fn load(data: &[u8]) -> (r: Result<GodotCtex, TextureError>)
        ensures
            match r {
                Ok(t) => sctex(data@) == Ok::<CtexVal, TextureError>(t.deep_view()),
                Err(e) => sctex(data@) == Err::<CtexVal, TextureError>(e),
            },
    {
        let mut cur = ByteCursor::new(data);
        if data.len() < 52 {
            return Err(TextureError::UnknownFormat);
        }
        let magic = match cur.read_u32() {
            Ok(v) => v,
            Err(_) => {
                return Err(TextureError::UnknownFormat);
            },
        };
        if magic != 0x32545347 {
            return Err(TextureError::UnknownFormat);
        }
        let version = match cur.read_u32() {
            Ok(v) => v,
            Err(_) => {
                return Err(TextureError::UnknownFormat);
            },
        };
        if version != 1 {
            return Err(TextureError::UnknownFormat);
        }
        let original_width = match cur.read_u32() {
            Ok(v) => v,
            Err(_) => {
                return Err(TextureError::CannotRead);
            },
        };
        let original_height = match cur.read_u32() {
            Ok(v) => v,
            Err(_) => {
                return Err(TextureError::CannotRead);
            },
        };
        let flags = match cur.read_u32() {
            Ok(v) => v,
            Err(_) => {
                return Err(TextureError::CannotRead);
            },
        };
        let original_num_mips = match cur.read_i32() {
            Ok(v) => v,
            Err(_) => {
                return Err(TextureError::CannotRead);
            },
        };
        match cur.skip(12) {
            Ok(()) => (),
            Err(_) => {
                return Err(TextureError::CannotRead);
            },
        }
        let df_raw = match cur.read_u32() {
            Ok(v) => v,
            Err(_) => {
                return Err(TextureError::CannotRead);
            },
        };
        let data_format = match GodotCtexDataFormats::from(df_raw) {
            Ok(df) => df,
            Err(e) => {
                return Err(e);
            },
        };
        let width = match cur.read_u16() {
            Ok(v) => v,
            Err(_) => {
                return Err(TextureError::CannotRead);
            },
        };
        let height = match cur.read_u16() {
            Ok(v) => v,
            Err(_) => {
                return Err(TextureError::CannotRead);
            },
        };
        let num_mips = match cur.read_u32() {
            Ok(v) => v,
            Err(_) => {
                return Err(TextureError::CannotRead);
            },
        };
        let format = match cur.read_u32() {
            Ok(v) => v,
            Err(_) => {
                return Err(TextureError::CannotRead);
            },
        };
        match data_format {
            GodotCtexDataFormats::Png | GodotCtexDataFormats::Webp => (),
            _ => {
                return Err(TextureError::CannotRead);
            },
        }
        let mips = match read_mips(&mut cur, num_mips as u64 + 1) {
            Ok(v) => v,
            Err(e) => {
                return Err(e);
            },
        };
        Ok(
            GodotCtex {
                original_width,
                original_height,
                flags,
                original_num_mips,
                data_format,
                width,
                height,
                num_mips,
                format,
                mips,
            },
        )
    }
}

} // verus!
