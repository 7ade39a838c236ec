use vstd::prelude::*;

verus! {

/// The encoding tag of a WAVE format chunk.
///
/// `Extensible` is not an encoding of its own: such a file names its real
/// encoding in the `subformat` field of its format chunk.
#[derive(Clone, Copy, Debug, PartialEq, Eq, Structural)]
pub enum Format {
    PCM,
    IEEEFloat,
    Extensible,
}

/// Tag value of integer PCM data.
pub const FORMAT_PCM: u16 = 1;

/// Tag value of IEEE floating-point data.
pub const FORMAT_IEEE: u16 = 3;

/// Tag value of the extensible format.
pub const FORMAT_EXT: u16 = 0xfffe;

/// The format named by a 16-bit tag, if the tag is one of the three known ones.
pub open spec fn format_of(val: u16) -> Option<Format> {
    if val == FORMAT_PCM {
        Some(Format::PCM)
    } else if val == FORMAT_IEEE {
        Some(Format::IEEEFloat)
    } else if val == FORMAT_EXT {
        Some(Format::Extensible)
    } else {
        None
    }
}

impl Format {
    /// Maps a format tag read from a file to its `Format`; `None` for any
    /// tag other than the three known ones.
    pub fn decode(val: u16) -> (r: Option<Format>)
        ensures
            r == format_of(val),
    {
        if val == FORMAT_PCM {
            Some(Format::PCM)
        } else if val == FORMAT_IEEE {
            Some(Format::IEEEFloat)
        } else if val == FORMAT_EXT {
            Some(Format::Extensible)
        } else {
            None
        }
    }
}

} // verus!
